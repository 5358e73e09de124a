//! Where a ray passes from voxel to voxel, in numbers.

use crate::arith::{vec_sum, Arith, Op, Vec3, INFINITY, ONE, ZERO};
use crate::collision::laws::{
    first_solid_after, law_ray_is_clipped_to_grid, law_ray_stops_at_first_solid,
    lemma_clip_keeps_order, walk_after,
};
use crate::collision::octree::{Cell, Fault, VoxelCollision};
use crate::collision::ray::{
    clipped, crossing_step, entry_index, hit_at, next_crossing, parallel, sign, RayHit, RayWalk,
    Stretch, PARALLEL_EPSILON,
};
use crate::rounding::{
    close, finite, floored, is_floor, lemma_divides, lemma_few_numbers, lemma_grows, lemma_order,
    lemma_product, lemma_signs, lemma_size_product, lemma_truncated, number, rounded, rounds, size,
};
use crate::single::{single, Single};
use vstd::prelude::*;

verus! {

/// Where the boundary with the given index lies on an axis.
#[verifier::opaque]
pub open spec fn plane_at(min: Single, res: Single, index: int) -> real {
    number(min) + index as real * number(res)
}

proof fn lemma_planes(min: Single, res: Single, index: int)
    ensures
        plane_at(min, res, index + 1) == plane_at(min, res, index) + number(res),
        plane_at(min, res, index - 1) == plane_at(min, res, index) - number(res),
{
    reveal(plane_at);
    let i = index as real;
    let r = number(res);
    assert((i + 1real) * r == i * r + r && (i - 1real) * r == i * r - r) by (nonlinear_arith);
}

/// One axis of a ray that the arithmetic can handle: nothing is larger than
/// `bound`, nor is the inverse of the direction.
pub open spec fn axis_within(
    g: Arith,
    reach: real,
    error: real,
    bound: real,
    o: Single,
    d: Single,
    min: Single,
    res: Single,
) -> bool {
    &&& rounds(g, reach, error)
    &&& error <= 1real && bound >= 1real && reach >= 100real * (bound * bound)
    &&& finite(o) && size(number(o)) <= bound
    &&& finite(min) && size(number(min)) <= bound
    &&& finite(res) && 0real < number(res) && number(res) <= bound
    &&& finite(d) && size(number(d)) <= bound
    &&& !parallel(d) ==> size(number(d)) * bound >= 1real
}

/// The boundary through which a ray leaves a voxel along an axis.
pub open spec fn way_out(d: Single, min: Single, res: Single, index: int) -> real {
    if number(d) > 0real {
        plane_at(min, res, index + 1)
    } else {
        plane_at(min, res, index)
    }
}

/// The boundary through which a ray comes into a voxel along an axis.
pub open spec fn way_in(d: Single, min: Single, res: Single, index: int) -> real {
    if number(d) > 0real {
        plane_at(min, res, index)
    } else {
        plane_at(min, res, index + 1)
    }
}

/// The ray meets a boundary at `t`, up to `slack`.
pub open spec fn meets(o: Single, d: Single, t: Single, plane: real, slack: real) -> bool {
    finite(t) && close(number(o) + number(t) * number(d), plane, slack)
}

/// Going on by `delta` takes the ray one voxel on along an axis.
pub open spec fn spans(d: Single, res: Single, delta: Single, slack: real) -> bool {
    &&& finite(delta) && number(delta) >= 0real
    &&& number(d) > 0real ==> close(number(delta) * number(d), number(res), slack)
    &&& number(d) < 0real ==> close(number(delta) * number(d), -number(res), slack)
}

/// What a walk keeps along an axis: it knows where it leaves its voxel, and how
/// far it is from one boundary to the next.
pub open spec fn on_track(
    o: Single,
    d: Single,
    min: Single,
    res: Single,
    index: int,
    t_max: Single,
    t_delta: Single,
    step: int,
    slack: real,
    unit: real,
) -> bool {
    if parallel(d) {
        t_max == single(INFINITY)
    } else {
        &&& number(d) > 0real && step == 1 || number(d) < 0real && step == -1
        &&& meets(o, d, t_max, way_out(d, min, res, index), slack)
        &&& spans(d, res, t_delta, unit)
    }
}

proof fn lemma_not_parallel(d: Single)
    requires
        finite(d),
        !parallel(d),
    ensures
        number(d) != 0real,
        number(d) > 0real ==> sign(d) == 1 && single(ZERO).below(d),
        number(d) < 0real ==> sign(d) == -1 && !single(ZERO).below(d),
{
    lemma_few_numbers();
    lemma_signs(d);
    lemma_order(single(ZERO), d);
    lemma_order(d, single(ZERO));
    lemma_order(single(PARALLEL_EPSILON), d.without_sign());
    lemma_order(single(ZERO), single(PARALLEL_EPSILON));
}

/// A quotient of one, times the divisor.
proof fn lemma_inverse(g: Arith, reach: real, error: real, bound: real, d: Single)
    requires
        rounds(g, reach, error),
        error <= 1real && bound >= 1real && reach >= 100real * (bound * bound),
        finite(d) && size(number(d)) <= bound,
        number(d) != 0real,
        size(number(d)) * bound >= 1real,
    ensures
        ({
            let inv = g(Op::Div(single(ONE), d));
            &&& finite(inv)
            &&& size(number(inv)) <= 2real * bound
            &&& close(number(inv) * number(d), 1real, bound * error)
            &&& number(d) > 0real ==> number(inv) >= 0real
            &&& number(d) < 0real ==> number(inv) <= 0real
        }),
{
    lemma_few_numbers();
    lemma_grows(1real, bound, bound);
    let inv = g(Op::Div(single(ONE), d));
    let b = number(d);
    lemma_one_over(b, bound);
    assert(rounded(inv, 1real / b, reach, error));
    lemma_order(single(ZERO), inv);
    lemma_order(inv, single(ZERO));
    lemma_near_one(number(inv), b, bound, error);
}

proof fn lemma_one_over(b: real, bound: real)
    requires
        b != 0real,
        bound >= 1real,
        size(b) * bound >= 1real,
    ensures
        1real / b * b == 1real,
        size(1real / b) <= bound,
        b > 0real ==> 1real / b >= 0real,
        b < 0real ==> 1real / b <= 0real,
{
    let q = 1real / b;
    assert(q * b == 1real) by (nonlinear_arith)
        requires
            q == 1real / b,
            b != 0real,
    ;
    if b > 0real {
        lemma_half(q, b, bound);
    } else {
        assert((-q) * (-b) == q * b) by (nonlinear_arith);
        lemma_half(-q, -b, bound);
    }
}

proof fn lemma_half(q: real, b: real, bound: real)
    requires
        b > 0real,
        q * b == 1real,
        b * bound >= 1real,
    ensures
        0real <= q && q <= bound,
{
    assert(q >= 0real) by (nonlinear_arith)
        requires
            b > 0real,
            q * b == 1real,
    ;
    lemma_grows(1real, b * bound, q);
    assert(q * (b * bound) == (q * b) * bound) by (nonlinear_arith);
    assert(1real * bound == bound);
}

proof fn lemma_near_one(inv: real, b: real, bound: real, error: real)
    requires
        b != 0real,
        1real / b * b == 1real,
        close(inv, 1real / b, error),
        size(b) <= bound,
    ensures
        close(inv * b, 1real, bound * error),
{
    let q = 1real / b;
    lemma_product(inv - q, b, error, bound);
    assert((inv - q) * b == inv * b - q * b) by (nonlinear_arith);
    assert(error * bound == bound * error) by (nonlinear_arith);
}

/// A boundary as the arithmetic has it.
pub proof fn lemma_plane(
    g: Arith,
    reach: real,
    error: real,
    bound: real,
    o: Single,
    min: Single,
    res: Single,
    index: i64,
)
    requires
        rounds(g, reach, error),
        error <= 1real && bound >= 1real && reach >= 100real * (bound * bound),
        finite(o) && size(number(o)) <= bound,
        finite(min) && size(number(min)) <= bound,
        finite(res) && 0real < number(res) && number(res) <= bound,
        0 <= index,
        index as real <= reach,
        index as real * number(res) <= bound,
    ensures
        ({
            let off = g(
                Op::Sub(g(Op::Add(min, g(Op::Mul(g(Op::FromInt(index)), res)))), o),
            );
            &&& finite(off)
            &&& size(number(off)) <= 7real * bound
            &&& close(number(off), plane_at(min, res, index as int) - number(o), 4real * (bound * error))
            &&& size(plane_at(min, res, index as int)) <= 2real * bound
        }),
        ({
            let plane = g(Op::Add(min, g(Op::Mul(g(Op::FromInt(index)), res))));
            &&& finite(plane)
            &&& close(number(plane), plane_at(min, res, index as int), 3real * (bound * error))
        }),
{
    reveal(plane_at);
    lemma_grows(1real, bound, bound);
    lemma_grows(1real, bound, error);
    lemma_grows(error, 1real, bound);
    let p = g(Op::FromInt(index));
    assert(rounded(p, index as real, reach, error));
    let r = number(res);
    let i = index as real;
    lemma_product(number(p) - i, r, error, bound);
    assert((number(p) - i) * r == number(p) * r - i * r) by (nonlinear_arith);
    assert(error * bound == bound * error) by (nonlinear_arith);
    lemma_grows(0real, i, r);
    assert(0real * r == 0real);
    let m = g(Op::Mul(p, res));
    assert(rounded(m, number(p) * r, reach, error));
    let f = g(Op::Add(min, m));
    assert(rounded(f, number(min) + number(m), reach, error));
    let off = g(Op::Sub(f, o));
    assert(rounded(off, number(f) - number(o), reach, error));
}

/// Where a walk first leaves its voxel along an axis.
proof fn lemma_crossing(
    g: Arith,
    reach: real,
    error: real,
    bound: real,
    o: Single,
    d: Single,
    min: Single,
    res: Single,
    index: int,
)
    requires
        axis_within(g, reach, error, bound, o, d, min, res),
        0 <= index < i32::MAX,
        (index + 1) as real <= reach,
        (index + 1) as real * number(res) <= bound,
    ensures
        parallel(d) ==> next_crossing(g, o, d, min, res, index) == single(INFINITY),
        !parallel(d) ==> meets(
            o,
            d,
            next_crossing(g, o, d, min, res, index),
            way_out(d, min, res, index),
            12real * (bound * (bound * error)),
        ),
{
    if !parallel(d) {
        lemma_not_parallel(d);
        lemma_inverse(g, reach, error, bound, d);
        let inv = g(Op::Div(single(ONE), d));
        let plane = (index + if single(ZERO).below(d) {
            1int
        } else {
            0
        }) as i64;
        let r = number(res);
        lemma_grows(index as real, (index + 1) as real, r);
        lemma_plane(g, reach, error, bound, o, min, res, plane);
        let off = g(Op::Sub(g(Op::Add(min, g(Op::Mul(g(Op::FromInt(plane)), res)))), o));
        lemma_product(number(off), number(inv), 7real * bound, 2real * bound);
        assert(7real * bound * (2real * bound) == 14real * (bound * bound)) by (nonlinear_arith);
        lemma_grows(1real, bound, bound);
        let t = g(Op::Mul(off, inv));
        assert(rounded(t, number(off) * number(inv), reach, error));
        assert(way_out(d, min, res, index) == plane_at(min, res, plane as int));
        lemma_crossing_real(
            plane_at(min, res, plane as int) - number(o),
            number(off),
            number(inv),
            number(t),
            number(d),
            bound,
            error,
        );
    }
}

proof fn lemma_crossing_real(
    goal: real,
    off: real,
    inv: real,
    t: real,
    d: real,
    bound: real,
    error: real,
)
    requires
        0real <= error && bound >= 1real,
        close(off, goal, 4real * (bound * error)),
        size(off) <= 7real * bound,
        close(inv * d, 1real, bound * error),
        close(t, off * inv, error),
        size(d) <= bound,
    ensures
        close(t * d, goal, 12real * (bound * (bound * error))),
{
    let w = bound * error;
    lemma_grows(1real, bound, error);
    lemma_grows(1real, bound, w);
    let m = t - off * inv;
    let n = inv * d - 1real;
    lemma_product(m, d, error, bound);
    assert(error * bound == w) by (nonlinear_arith)
        requires
            w == bound * error,
    ;
    lemma_product(off, n, 7real * bound, w);
    assert(7real * bound * w == 7real * (bound * w)) by (nonlinear_arith);
    assert(t * d == m * d + off * n + off) by (nonlinear_arith)
        requires
            m == t - off * inv,
            n == inv * d - 1real,
    ;
}

/// How far a walk goes from one boundary of an axis to the next.
proof fn lemma_span(
    g: Arith,
    reach: real,
    error: real,
    bound: real,
    o: Single,
    d: Single,
    min: Single,
    res: Single,
)
    requires
        axis_within(g, reach, error, bound, o, d, min, res),
        !parallel(d),
    ensures
        spans(d, res, crossing_step(g, d, res), 2real * (bound * (bound * error))),
{
    lemma_few_numbers();
    lemma_not_parallel(d);
    lemma_inverse(g, reach, error, bound, d);
    let inv = g(Op::Div(single(ONE), d));
    lemma_signs(inv);
    let long = inv.without_sign();
    let r = number(res);
    let k = number(long);
    lemma_product(r, k, bound, 2real * bound);
    assert(bound * (2real * bound) == 2real * (bound * bound)) by (nonlinear_arith);
    lemma_grows(1real, bound, bound);
    lemma_grows(0real, k, r);
    assert(r * 0real == 0real);
    let delta = g(Op::Mul(res, long));
    assert(rounded(delta, r * k, reach, error));
    lemma_order(single(ZERO), delta);
    if number(d) > 0real {
        lemma_span_real(r, k, number(delta), number(d), bound, error);
    } else {
        assert((-number(inv)) * (-number(d)) == number(inv) * number(d)) by (nonlinear_arith);
        lemma_span_real(r, k, number(delta), -number(d), bound, error);
        assert(number(delta) * (-number(d)) == -(number(delta) * number(d))) by (nonlinear_arith);
    }
}

proof fn lemma_span_real(r: real, k: real, delta: real, d: real, bound: real, error: real)
    requires
        0real <= error && bound >= 1real,
        0real < r && r <= bound,
        0real < d && d <= bound,
        close(k * d, 1real, bound * error),
        close(delta, r * k, error),
    ensures
        close(delta * d, r, 2real * (bound * (bound * error))),
{
    let w = bound * error;
    lemma_grows(1real, bound, error);
    lemma_grows(1real, bound, w);
    let m = delta - r * k;
    let n = k * d - 1real;
    lemma_product(m, d, error, bound);
    assert(error * bound == w) by (nonlinear_arith)
        requires
            w == bound * error,
    ;
    lemma_product(r, n, bound, w);
    assert(delta * d == m * d + r * n + r) by (nonlinear_arith)
        requires
            m == delta - r * k,
            n == k * d - 1real,
    ;
}

/// A number is no larger than its product with another, divided by the least size
/// of that.
proof fn lemma_over(t: real, d: real, most: real, bound: real)
    requires
        size(t * d) <= most,
        size(d) * bound >= 1real,
        d != 0real,
        bound >= 1real,
    ensures
        size(t) <= most * bound,
{
    if d > 0real {
        lemma_size_product(t, d);
        lemma_over_half(size(t), d, most, bound);
    } else {
        lemma_size_product(t, -d);
        assert(t * (-d) == -(t * d)) by (nonlinear_arith);
        lemma_over_half(size(t), -d, most, bound);
    }
}

proof fn lemma_over_half(s: real, d: real, most: real, bound: real)
    requires
        s >= 0real,
        d > 0real,
        s * d <= most,
        d * bound >= 1real,
        bound >= 1real,
    ensures
        s <= most * bound,
{
    lemma_grows(1real, d * bound, s);
    assert(s * (d * bound) == (s * d) * bound) by (nonlinear_arith);
    lemma_grows(s * d, most, bound);
}

/// Going on along an axis keeps to the boundaries.
proof fn lemma_axis_step(
    g: Arith,
    reach: real,
    error: real,
    bound: real,
    o: Single,
    d: Single,
    min: Single,
    res: Single,
    index: int,
    t_max: Single,
    t_delta: Single,
    step: int,
    slack: real,
)
    requires
        axis_within(g, reach, error, bound, o, d, min, res),
        !parallel(d),
        0 <= index < i32::MAX,
        (index + 1) as real <= reach,
        (index + 1) as real * number(res) <= bound,
        0real <= slack && slack <= 1real,
        2real * (bound * (bound * error)) <= 1real,
        on_track(
            o,
            d,
            min,
            res,
            index,
            t_max,
            t_delta,
            step,
            slack,
            2real * (bound * (bound * error)),
        ),
    ensures
        on_track(
            o,
            d,
            min,
            res,
            index + step,
            g(Op::Add(t_max, t_delta)),
            t_delta,
            step,
            slack + 3real * (bound * (bound * error)),
            2real * (bound * (bound * error)),
        ),
        t_max.at_most(g(Op::Add(t_max, t_delta))),
        meets(o, d, t_max, way_in(d, min, res, index + step), slack),
{
    let unit = 2real * (bound * (bound * error));
    let a = number(t_max);
    let b = number(t_delta);
    let dd = number(d);
    let plane = way_out(d, min, res, index);
    lemma_plane_sizes(min, res, index, bound);
    lemma_planes(min, res, index);
    lemma_planes(min, res, index + 1);
    lemma_over(a, dd, 4real * bound, bound);
    lemma_over(b, dd, 2real * bound, bound);
    assert(4real * bound * bound == 4real * (bound * bound) && 2real * bound * bound == 2real * (bound
        * bound)) by (nonlinear_arith);
    let next = g(Op::Add(t_max, t_delta));
    assert(rounded(next, a + b, reach, error));
    lemma_order(t_max, next);
    lemma_sum_times(a, b, number(next), dd, bound, error);
}

proof fn lemma_sum_times(a: real, b: real, c: real, d: real, bound: real, error: real)
    requires
        0real <= error && bound >= 1real,
        close(c, a + b, error),
        size(d) <= bound,
    ensures
        close(c * d, a * d + b * d, bound * (bound * error)),
{
    let m = c - (a + b);
    lemma_product(m, d, error, bound);
    assert(error * bound == bound * error) by (nonlinear_arith);
    lemma_grows(0real, error, bound);
    assert(bound * 0real == 0real);
    lemma_grows(1real, bound, bound * error);
    assert(c * d == m * d + a * d + b * d) by (nonlinear_arith)
        requires
            m == c - (a + b),
    ;
}

proof fn lemma_plane_sizes(min: Single, res: Single, index: int, bound: real)
    requires
        size(number(min)) <= bound,
        0real < number(res),
        0 <= index,
        (index + 1) as real * number(res) <= bound,
    ensures
        size(plane_at(min, res, index)) <= 2real * bound,
        size(plane_at(min, res, index + 1)) <= 2real * bound,
{
    reveal(plane_at);
    let r = number(res);
    lemma_grows(0real, index as real, r);
    lemma_grows(index as real, (index + 1) as real, r);
    assert(0real * r == 0real);
}

/// A ray and a grid that the arithmetic can handle, the ray not parallel to every
/// axis.
pub open spec fn ray_within(
    scene: VoxelCollision,
    g: Arith,
    reach: real,
    error: real,
    bound: real,
    origin: Vec3,
    dir: Vec3,
) -> bool {
    let min = scene.grid_min;
    let res = scene.voxel_resolution;
    let n = scene.num_voxels;
    &&& axis_within(g, reach, error, bound, origin.x, dir.x, min.x, res)
    &&& axis_within(g, reach, error, bound, origin.y, dir.y, min.y, res)
    &&& axis_within(g, reach, error, bound, origin.z, dir.z, min.z, res)
    &&& number(res) * bound >= 1real
    &&& 0 < n.x < i32::MAX && 0 < n.y < i32::MAX && 0 < n.z < i32::MAX
    &&& (n.x + 1) as real <= reach && (n.y + 1) as real <= reach && (n.z + 1) as real <= reach
    &&& (n.x + 1) as real * number(res) <= bound
    &&& (n.y + 1) as real * number(res) <= bound
    &&& (n.z + 1) as real * number(res) <= bound
    &&& !parallel(dir.x) || !parallel(dir.y) || !parallel(dir.z)
}

/// What a walk keeps along all axes.
pub open spec fn keeps_track(
    scene: VoxelCollision,
    origin: Vec3,
    dir: Vec3,
    walk: RayWalk,
    slack: real,
    unit: real,
) -> bool {
    let min = scene.grid_min;
    let res = scene.voxel_resolution;
    &&& on_track(
        origin.x,
        dir.x,
        min.x,
        res,
        walk.cell.x as int,
        walk.t_max.x,
        walk.t_delta.x,
        walk.step.x as int,
        slack,
        unit,
    )
    &&& on_track(
        origin.y,
        dir.y,
        min.y,
        res,
        walk.cell.y as int,
        walk.t_max.y,
        walk.t_delta.y,
        walk.step.y as int,
        slack,
        unit,
    )
    &&& on_track(
        origin.z,
        dir.z,
        min.z,
        res,
        walk.cell.z as int,
        walk.t_max.z,
        walk.t_delta.z,
        walk.step.z as int,
        slack,
        unit,
    )
}

/// The walk is not past any boundary that it has yet to cross.
pub open spec fn not_past(walk: RayWalk) -> bool {
    &&& finite(walk.t)
    &&& walk.t.at_most(walk.t_max.x)
    &&& walk.t.at_most(walk.t_max.y)
    &&& walk.t.at_most(walk.t_max.z)
}

/// The ray meets, at `t`, a face of the voxel that looks against its direction.
pub open spec fn comes_in(
    scene: VoxelCollision,
    origin: Vec3,
    dir: Vec3,
    cell: Cell,
    t: Single,
    slack: real,
) -> bool {
    let min = scene.grid_min;
    let res = scene.voxel_resolution;
    ||| !parallel(dir.x) && meets(
        origin.x,
        dir.x,
        t,
        way_in(dir.x, min.x, res, cell.x as int),
        slack,
    )
    ||| !parallel(dir.y) && meets(
        origin.y,
        dir.y,
        t,
        way_in(dir.y, min.y, res, cell.y as int),
        slack,
    )
    ||| !parallel(dir.z) && meets(
        origin.z,
        dir.z,
        t,
        way_in(dir.z, min.z, res, cell.z as int),
        slack,
    )
}

proof fn lemma_below_infinity(t: Single)
    requires
        finite(t),
    ensures
        t.below(single(INFINITY)),
        t.at_most(single(INFINITY)),
        t.at_most(t),
        !single(INFINITY).nan(),
{
}

proof fn lemma_looser(
    o: Single,
    d: Single,
    min: Single,
    res: Single,
    index: int,
    t_max: Single,
    t_delta: Single,
    step: int,
    slack: real,
    more: real,
    unit: real,
)
    requires
        slack <= more,
        on_track(o, d, min, res, index, t_max, t_delta, step, slack, unit),
    ensures
        on_track(o, d, min, res, index, t_max, t_delta, step, more, unit),
        parallel(d) ==> t_max == single(INFINITY),
        !parallel(d) ==> finite(t_max),
{
}

/// A step of a walk keeps track, enters the next voxel through a face, and does not
/// turn back.
proof fn lemma_step(
    scene: VoxelCollision,
    g: Arith,
    reach: real,
    error: real,
    bound: real,
    origin: Vec3,
    dir: Vec3,
    walk: RayWalk,
    slack: real,
)
    requires
        ray_within(scene, g, reach, error, bound, origin, dir),
        scene.num_voxels.holds(walk.cell),
        0real <= slack && slack <= 1real,
        2real * (bound * (bound * error)) <= 1real,
        keeps_track(scene, origin, dir, walk, slack, 2real * (bound * (bound * error))),
    ensures
        keeps_track(
            scene,
            origin,
            dir,
            walk.next(g),
            slack + 3real * (bound * (bound * error)),
            2real * (bound * (bound * error)),
        ),
        not_past(walk.next(g)),
        comes_in(scene, origin, dir, walk.next(g).cell, walk.next(g).t, slack),
        not_past(walk) ==> walk.t.at_most(walk.next(g).t),
{
    let unit = 2real * (bound * (bound * error));
    let w = bound * (bound * error);
    let more = slack + 3real * w;
    lemma_unit(bound, error);
    let min = scene.grid_min;
    let res = scene.voxel_resolution;
    let n = scene.num_voxels;
    let c = walk.cell;
    let m = walk.t_max;
    let e = walk.t_delta;
    let s = walk.step;
    lemma_looser(origin.x, dir.x, min.x, res, c.x as int, m.x, e.x, s.x as int, slack, more, unit);
    lemma_looser(origin.y, dir.y, min.y, res, c.y as int, m.y, e.y, s.y as int, slack, more, unit);
    lemma_looser(origin.z, dir.z, min.z, res, c.z as int, m.z, e.z, s.z as int, slack, more, unit);
    if finite(m.x) {
        lemma_below_infinity(m.x);
    }
    if finite(m.y) {
        lemma_below_infinity(m.y);
    }
    if finite(m.z) {
        lemma_below_infinity(m.z);
    }
    lemma_grows((c.x + 1) as real, (n.x + 1) as real, number(res));
    lemma_grows((c.y + 1) as real, (n.y + 1) as real, number(res));
    lemma_grows((c.z + 1) as real, (n.z + 1) as real, number(res));
    if walk.axis() == 0 {
        assert(!parallel(dir.x));
        lemma_axis_step(
            g,
            reach,
            error,
            bound,
            origin.x,
            dir.x,
            min.x,
            res,
            c.x as int,
            m.x,
            e.x,
            s.x as int,
            slack,
        );
    } else if walk.axis() == 1 {
        assert(!parallel(dir.y));
        lemma_axis_step(
            g,
            reach,
            error,
            bound,
            origin.y,
            dir.y,
            min.y,
            res,
            c.y as int,
            m.y,
            e.y,
            s.y as int,
            slack,
        );
    } else {
        assert(!parallel(dir.z));
        lemma_axis_step(
            g,
            reach,
            error,
            bound,
            origin.z,
            dir.z,
            min.z,
            res,
            c.z as int,
            m.z,
            e.z,
            s.z as int,
            slack,
        );
    }
}

proof fn lemma_unit(bound: real, error: real)
    requires
        0real <= error && bound >= 1real,
    ensures
        0real <= bound * (bound * error),
{
    lemma_grows(0real, error, bound);
    lemma_grows(0real, bound * error, bound);
    assert(bound * 0real == 0real);
}

/// How far off a walk may be after `k` steps.
pub open spec fn drift(bound: real, error: real, k: nat) -> real {
    (12real + 3real * (k as real)) * (bound * (bound * error))
}

proof fn lemma_drift(bound: real, error: real, k: nat)
    requires
        0real <= error && bound >= 1real,
    ensures
        drift(bound, error, k + 1) == drift(bound, error, k) + 3real * (bound * (bound * error)),
        drift(bound, error, 0) == 12real * (bound * (bound * error)),
        0real <= drift(bound, error, k),
        drift(bound, error, k) <= drift(bound, error, k + 1),
        2real * (bound * (bound * error)) <= drift(bound, error, k),
{
    let w = bound * (bound * error);
    let a = k as real;
    lemma_unit(bound, error);
    assert((k + 1) as real == a + 1real);
    assert((12real + 3real * (a + 1real)) * w == (12real + 3real * a) * w + 3real * w)
        by (nonlinear_arith);
    assert((12real + 3real * 0real) * w == 12real * w) by (nonlinear_arith);
    lemma_grows(12real, 12real + 3real * a, w);
}

/// A walk keeps track at the start.
proof fn lemma_start(
    scene: VoxelCollision,
    g: Arith,
    reach: real,
    error: real,
    bound: real,
    origin: Vec3,
    dir: Vec3,
    near: Single,
)
    requires
        ray_within(scene, g, reach, error, bound, origin, dir),
    ensures
        keeps_track(
            scene,
            origin,
            dir,
            scene.walk_start(g, origin, dir, near),
            12real * (bound * (bound * error)),
            2real * (bound * (bound * error)),
        ),
        scene.num_voxels.holds(scene.walk_start(g, origin, dir, near).cell),
{
    let min = scene.grid_min;
    let res = scene.voxel_resolution;
    let n = scene.num_voxels;
    let c = scene.walk_start(g, origin, dir, near).cell;
    lemma_grows((c.x + 1) as real, (n.x + 1) as real, number(res));
    lemma_grows((c.y + 1) as real, (n.y + 1) as real, number(res));
    lemma_grows((c.z + 1) as real, (n.z + 1) as real, number(res));
    lemma_crossing(g, reach, error, bound, origin.x, dir.x, min.x, res, c.x as int);
    lemma_crossing(g, reach, error, bound, origin.y, dir.y, min.y, res, c.y as int);
    lemma_crossing(g, reach, error, bound, origin.z, dir.z, min.z, res, c.z as int);
    if !parallel(dir.x) {
        lemma_not_parallel(dir.x);
        lemma_span(g, reach, error, bound, origin.x, dir.x, min.x, res);
    }
    if !parallel(dir.y) {
        lemma_not_parallel(dir.y);
        lemma_span(g, reach, error, bound, origin.y, dir.y, min.y, res);
    }
    if !parallel(dir.z) {
        lemma_not_parallel(dir.z);
        lemma_span(g, reach, error, bound, origin.z, dir.z, min.z, res);
    }
}

/// What holds of a walk after one or more steps within the grid.
proof fn lemma_walk(
    scene: VoxelCollision,
    g: Arith,
    reach: real,
    error: real,
    bound: real,
    origin: Vec3,
    dir: Vec3,
    walk: RayWalk,
    before: nat,
    k: nat,
)
    requires
        ray_within(scene, g, reach, error, bound, origin, dir),
        keeps_track(
            scene,
            origin,
            dir,
            walk,
            drift(bound, error, before),
            2real * (bound * (bound * error)),
        ),
        drift(bound, error, before + k) <= 1real,
        forall|j: nat| j < k ==> scene.num_voxels.holds((#[trigger] walk_after(g, walk, j)).cell),
    ensures
        keeps_track(
            scene,
            origin,
            dir,
            walk_after(g, walk, k),
            drift(bound, error, before + k),
            2real * (bound * (bound * error)),
        ),
        k > 0 ==> not_past(walk_after(g, walk, k)) && comes_in(
            scene,
            origin,
            dir,
            walk_after(g, walk, k).cell,
            walk_after(g, walk, k).t,
            drift(bound, error, before + k),
        ),
    decreases k,
{
    if k > 0 {
        let next = walk.next(g);
        let last = (k - 1) as nat;
        lemma_drift_grows(bound, error, before, before + k);
        lemma_drift(bound, error, before);
        assert(walk_after(g, walk, 0) == walk);
        lemma_step(scene, g, reach, error, bound, origin, dir, walk, drift(bound, error, before));
        assert forall|j: nat| j < last implies scene.num_voxels.holds(
            (#[trigger] walk_after(g, next, j)).cell,
        ) by {
            assert(walk_after(g, walk, (j + 1) as nat) == walk_after(g, next, j));
        }
        assert(before + 1 + last == before + k);
        lemma_walk(scene, g, reach, error, bound, origin, dir, next, before + 1, last);
        assert(walk_after(g, walk, k) == walk_after(g, next, last));
        if last == 0 {
            assert(walk_after(g, next, 0) == next);
            lemma_comes_in_looser(
                scene,
                origin,
                dir,
                next.cell,
                next.t,
                drift(bound, error, before),
                drift(bound, error, before + k),
            );
        }
    }
}

proof fn lemma_comes_in_looser(
    scene: VoxelCollision,
    origin: Vec3,
    dir: Vec3,
    cell: Cell,
    t: Single,
    slack: real,
    more: real,
)
    requires
        comes_in(scene, origin, dir, cell, t, slack),
        slack <= more,
    ensures
        comes_in(scene, origin, dir, cell, t, more),
{
}

proof fn lemma_drift_grows(bound: real, error: real, a: nat, b: nat)
    requires
        0real <= error && bound >= 1real,
        a <= b,
    ensures
        drift(bound, error, a) <= drift(bound, error, b),
        2real * (bound * (bound * error)) <= drift(bound, error, a),
        0real <= drift(bound, error, a),
    decreases b - a,
{
    lemma_drift(bound, error, a);
    if a < b {
        lemma_drift(bound, error, (b - 1) as nat);
        lemma_drift_grows(bound, error, a, (b - 1) as nat);
    }
}

proof fn lemma_one_more(g: Arith, walk: RayWalk, k: nat)
    ensures
        walk_after(g, walk, k + 1) == walk_after(g, walk, k).next(g),
    decreases k,
{
    if k > 0 {
        lemma_one_more(g, walk.next(g), (k - 1) as nat);
        assert(walk_after(g, walk, k) == walk_after(g, walk.next(g), (k - 1) as nat));
        assert(walk_after(g, walk, k + 1) == walk_after(g, walk.next(g), k));
    } else {
        assert(walk_after(g, walk, 0) == walk);
        assert(walk_after(g, walk, 1) == walk_after(g, walk.next(g), 0));
    }
}

/// A walk along a ray never turns back, whatever the signs of its direction: each
/// voxel after the first is entered no later than the next, in a place that lies on
/// the face of the voxel that looks against the direction, up to rounding.
pub proof fn law_walk_goes_forward(
    scene: VoxelCollision,
    g: Arith,
    reach: real,
    error: real,
    bound: real,
    origin: Vec3,
    dir: Vec3,
    near: Single,
    k: nat,
)
    requires
        ray_within(scene, g, reach, error, bound, origin, dir),
        drift(bound, error, k + 1) <= 1real,
        0 < k,
        forall|j: nat|
            j <= k ==> scene.num_voxels.holds(
                (#[trigger] walk_after(g, scene.walk_start(g, origin, dir, near), j)).cell,
            ),
    ensures
        ({
            let start = scene.walk_start(g, origin, dir, near);
            let here = walk_after(g, start, k);
            let there = walk_after(g, start, k + 1);
            &&& finite(here.t) && finite(there.t)
            &&& number(here.t) <= number(there.t)
            &&& comes_in(scene, origin, dir, here.cell, here.t, drift(bound, error, k))
            &&& comes_in(scene, origin, dir, there.cell, there.t, drift(bound, error, k + 1))
        }),
{
    let start = scene.walk_start(g, origin, dir, near);
    lemma_start(scene, g, reach, error, bound, origin, dir, near);
    lemma_drift(bound, error, 0);
    lemma_drift_grows(bound, error, k, k + 1);
    lemma_walk(scene, g, reach, error, bound, origin, dir, start, 0, k);
    lemma_walk(scene, g, reach, error, bound, origin, dir, start, 0, k + 1);
    let here = walk_after(g, start, k);
    lemma_one_more(g, start, k);
    lemma_step(scene, g, reach, error, bound, origin, dir, here, drift(bound, error, k));
    lemma_order(here.t, here.next(g).t);
}

/// A place on an axis lies in a voxel, up to `slack`.
pub open spec fn in_slab(min: Single, res: Single, index: int, at: real, slack: real) -> bool {
    plane_at(min, res, index) - slack <= at && at <= plane_at(min, res, index + 1) + slack
}

proof fn lemma_plane_order(min: Single, res: Single, a: int, b: int)
    requires
        number(res) > 0real,
        a <= b,
    ensures
        plane_at(min, res, a) <= plane_at(min, res, b),
{
    reveal(plane_at);
    lemma_grows(a as real, b as real, number(res));
}

/// The voxel along an axis in which a place lies that the grid holds.
proof fn lemma_entry(
    g: Arith,
    reach: real,
    error: real,
    bound: real,
    at: Single,
    min: Single,
    res: Single,
    n: u32,
    place: real,
    slack: real,
)
    requires
        rounds(g, reach, error),
        error <= 1real && bound >= 1real && reach >= 100real * (bound * bound),
        finite(min) && size(number(min)) <= bound,
        finite(res) && 0real < number(res) && number(res) <= bound,
        number(res) * bound >= 1real,
        0 < n <= i32::MAX,
        finite(at),
        size(number(at)) <= 6real * bound,
        close(number(at), place, 2real * error),
        4real * (bound * error) <= slack,
        plane_at(min, res, 0) - slack <= place,
        place <= plane_at(min, res, n as int) + slack,
    ensures
        in_slab(min, res, entry_index(g, at, min, res, n), place, slack),
{
    lemma_grows(1real, bound, bound);
    lemma_grows(1real, bound, error);
    let gap = g(Op::Sub(at, min));
    let s = number(gap);
    let r = number(res);
    assert(rounded(gap, number(at) - number(min), reach, error));
    lemma_quotient_size(s, r, bound);
    let quotient = g(Op::Div(gap, res));
    assert(rounded(quotient, s / r, reach, error));
    let q = number(quotient);
    lemma_quotient_times(q, s, r, bound, error);
    let floor = g(Op::Floor(quotient));
    assert(floored(floor, q));
    let whole = choose|k: int| #[trigger] is_floor(k, q) && number(floor) == k as real;
    lemma_truncated(floor, whole, i32::MIN as int, i32::MAX as int);
    lemma_grows(whole as real, q, r);
    lemma_grows(q, whole as real + 1real, r);
    assert((whole + 1) as real == whole as real + 1real);
    let index = entry_index(g, at, min, res, n);
    assert(plane_at(min, res, whole) == number(min) + whole as real * r && plane_at(
        min,
        res,
        whole + 1,
    ) == number(min) + (whole as real + 1real) * r) by {
        reveal(plane_at);
    }
    if whole < 0 {
        assert(index == 0);
        lemma_plane_order(min, res, whole + 1, 1);
    } else if whole >= n {
        assert(index == n - 1);
        lemma_plane_order(min, res, n - 1, whole);
    } else {
        assert(index == whole);
    }
}

pub proof fn lemma_quotient_size(s: real, r: real, bound: real)
    requires
        r > 0real,
        r * bound >= 1real,
        bound >= 1real,
        size(s) <= 8real * bound,
    ensures
        size(s / r) <= 8real * (bound * bound),
        s / r * r == s,
{
    lemma_divides(s, r);
    let q = s / r;
    lemma_over(q, r, 8real * bound, bound);
    assert(8real * bound * bound == 8real * (bound * bound)) by (nonlinear_arith);
}

pub proof fn lemma_quotient_times(q: real, s: real, r: real, bound: real, error: real)
    requires
        r > 0real && r <= bound,
        error >= 0real,
        s / r * r == s,
        close(q, s / r, error),
    ensures
        close(q * r, s, bound * error),
{
    let k = s / r;
    lemma_product(q - k, r, error, bound);
    assert((q - k) * r == q * r - k * r) by (nonlinear_arith);
    assert(error * bound == bound * error) by (nonlinear_arith);
}

/// Where the ray meets a plane of the grid, as the arithmetic has it.
proof fn lemma_meets_plane(
    g: Arith,
    reach: real,
    error: real,
    bound: real,
    o: Single,
    d: Single,
    plane: Single,
    exact: real,
)
    requires
        rounds(g, reach, error),
        error <= 1real && bound >= 1real && reach >= 100real * (bound * bound),
        finite(o) && size(number(o)) <= bound,
        finite(d) && size(number(d)) <= bound,
        number(d) != 0real,
        size(number(d)) * bound >= 1real,
        finite(plane),
        size(exact) <= 2real * bound,
        close(number(plane), exact, 3real * (bound * error)),
    ensures
        meets(o, d, g(Op::Div(g(Op::Sub(plane, o)), d)), exact, 5real * (bound * error)),
{
    lemma_grows(1real, bound, bound);
    lemma_grows(1real, bound, error);
    lemma_grows(error, 1real, bound);
    assert(error * bound == bound * error) by (nonlinear_arith);
    let gap = g(Op::Sub(plane, o));
    let s = number(gap);
    let b = number(d);
    assert(rounded(gap, number(plane) - number(o), reach, error));
    let k = s / b;
    assert(k * b == s) by (nonlinear_arith)
        requires
            k == s / b,
            b != 0real,
    ;
    lemma_over(k, b, 8real * bound, bound);
    assert(8real * bound * bound == 8real * (bound * bound)) by (nonlinear_arith);
    let t = g(Op::Div(gap, d));
    assert(rounded(t, k, reach, error));
    let q = number(t);
    lemma_product(q - k, b, error, bound);
    assert((q - k) * b == q * b - k * b) by (nonlinear_arith);
}

/// What lies on the part of the ray that is left lies between the two planes.
proof fn lemma_clip(
    g: Arith,
    reach: real,
    error: real,
    bound: real,
    s: Stretch,
    o: Single,
    d: Single,
    low: Single,
    high: Single,
    first: real,
    last: real,
    t: Single,
)
    requires
        rounds(g, reach, error),
        error <= 1real && bound >= 1real && reach >= 100real * (bound * bound),
        finite(o) && size(number(o)) <= bound,
        finite(d) && size(number(d)) <= bound,
        !parallel(d),
        size(number(d)) * bound >= 1real,
        finite(low) && finite(high),
        size(first) <= 2real * bound && size(last) <= 2real * bound,
        first <= last,
        close(number(low), first, 3real * (bound * error)),
        close(number(high), last, 3real * (bound * error)),
        finite(t),
        clipped(g, s, o, d, low, high) matches Some(r) && r.near.at_most(t) && t.at_most(r.far),
    ensures
        first - 5real * (bound * error) <= number(o) + number(t) * number(d),
        number(o) + number(t) * number(d) <= last + 5real * (bound * error),
{
    lemma_not_parallel(d);
    lemma_meets_plane(g, reach, error, bound, o, d, low, first);
    lemma_meets_plane(g, reach, error, bound, o, d, high, last);
    let t1 = g(Op::Div(g(Op::Sub(low, o)), d));
    let t2 = g(Op::Div(g(Op::Sub(high, o)), d));
    lemma_order(t1, t2);
    lemma_order(t2, t1);
    lemma_order(t1, t);
    lemma_order(t2, t);
    lemma_order(t, t1);
    lemma_order(t, t2);
    let a = number(t1);
    let b = number(t2);
    let c = number(t);
    let k = number(d);
    if a <= c {
        lemma_along(a, c, k);
    }
    if b <= c {
        lemma_along(b, c, k);
    }
    if c <= a {
        lemma_along(c, a, k);
    }
    if c <= b {
        lemma_along(c, b, k);
    }
    assert(a <= c || b <= c);
    assert(c <= a || c <= b);
}

/// Later on the ray is farther in its direction.
proof fn lemma_along(a: real, b: real, d: real)
    requires
        a <= b,
    ensures
        d >= 0real ==> a * d <= b * d,
        d <= 0real ==> b * d <= a * d,
{
    if d >= 0real {
        lemma_grows(a, b, d);
    }
    if d <= 0real {
        lemma_grows(a, b, -d);
        assert(a * (-d) == -(a * d) && b * (-d) == -(b * d)) by (nonlinear_arith);
    }
}

/// The ray starts, along an axis, in the voxel that holds the place where it comes
/// into the grid.
proof fn lemma_start_axis(
    g: Arith,
    reach: real,
    error: real,
    bound: real,
    o: Single,
    d: Single,
    min: Single,
    res: Single,
    n: u32,
    near: Single,
    s: Stretch,
)
    requires
        axis_within(g, reach, error, bound, o, d, min, res),
        number(res) * bound >= 1real,
        0 < n < i32::MAX,
        (n + 1) as real <= reach,
        (n + 1) as real * number(res) <= bound,
        12real * (bound * (bound * error)) <= 1real,
        !parallel(d),
        finite(near),
        clipped(
            g,
            s,
            o,
            d,
            min,
            g(Op::Add(min, g(Op::Mul(g(Op::FromInt(n as i64)), res)))),
        ) matches Some(r) && r.near.at_most(near) && near.at_most(r.far),
    ensures
        in_slab(
            min,
            res,
            entry_index(g, g(Op::Add(o, g(Op::Mul(d, near)))), min, res, n),
            number(o) + number(near) * number(d),
            5real * (bound * error),
        ),
{
    lemma_grows(1real, bound, bound);
    lemma_grows(1real, bound, error);
    lemma_unit(bound, error);
    lemma_grows(1real, bound, bound * error);
    lemma_grows(n as real, (n + 1) as real, number(res));
    lemma_plane(g, reach, error, bound, o, min, res, n as i64);
    let high = g(Op::Add(min, g(Op::Mul(g(Op::FromInt(n as i64)), res))));
    let first = plane_at(min, res, 0);
    let last = plane_at(min, res, n as int);
    assert(first == number(min)) by {
        reveal(plane_at);
        assert(0real * number(res) == 0real);
    }
    lemma_plane_order(min, res, 0, n as int);
    lemma_clip(g, reach, error, bound, s, o, d, min, high, first, last, near);
    let place = number(o) + number(near) * number(d);
    assert(number(d) * number(near) == number(near) * number(d)) by (nonlinear_arith);
    let along = g(Op::Mul(d, near));
    assert(rounded(along, number(d) * number(near), reach, error));
    let at = g(Op::Add(o, along));
    assert(rounded(at, number(o) + number(along), reach, error));
    lemma_entry(g, reach, error, bound, at, min, res, n, place, 5real * (bound * error));
}

/// Each place along the ray where it comes into the grid lies in the voxel where the
/// walk starts.
proof fn lemma_start_in_voxel(
    scene: VoxelCollision,
    g: Arith,
    reach: real,
    error: real,
    bound: real,
    origin: Vec3,
    dir: Vec3,
    stretch: Stretch,
)
    requires
        ray_within(scene, g, reach, error, bound, origin, dir),
        12real * (bound * (bound * error)) <= 1real,
        scene.inside(g, origin, dir) == Some(stretch),
        finite(stretch.near),
    ensures
        ({
            let cell = scene.walk_start(g, origin, dir, stretch.near).cell;
            all_in_slab(scene, origin, dir, cell, stretch.near, 5real * (bound * error))
        }),
{
    let low = scene.grid_min;
    let res = scene.voxel_resolution;
    let n = scene.num_voxels;
    let high = vec_sum(g, scene.grid_min, scene.extent(g));
    let whole = Stretch { near: single(ZERO), far: single(INFINITY) };
    lemma_clip_keeps_order(g, whole, origin.x, dir.x, low.x, high.x);
    let x = clipped(g, whole, origin.x, dir.x, low.x, high.x)->0;
    lemma_clip_keeps_order(g, x, origin.y, dir.y, low.y, high.y);
    let y = clipped(g, x, origin.y, dir.y, low.y, high.y)->0;
    lemma_clip_keeps_order(g, y, origin.z, dir.z, low.z, high.z);
    let near = stretch.near;
    if !parallel(dir.x) {
        lemma_start_axis(
            g,
            reach,
            error,
            bound,
            origin.x,
            dir.x,
            low.x,
            res,
            n.x,
            near,
            whole,
        );
    }
    if !parallel(dir.y) {
        lemma_start_axis(g, reach, error, bound, origin.y, dir.y, low.y, res, n.y, near, x);
    }
    if !parallel(dir.z) {
        lemma_start_axis(g, reach, error, bound, origin.z, dir.z, low.z, res, n.z, near, y);
    }
}

/// The place `t` along a ray lies in a voxel, up to `slack`, along each axis that the
/// ray is not parallel to.
pub open spec fn all_in_slab(
    scene: VoxelCollision,
    origin: Vec3,
    dir: Vec3,
    cell: Cell,
    t: Single,
    slack: real,
) -> bool {
    let min = scene.grid_min;
    let res = scene.voxel_resolution;
    &&& !parallel(dir.x) ==> in_slab(
        min.x,
        res,
        cell.x as int,
        number(origin.x) + number(t) * number(dir.x),
        slack,
    )
    &&& !parallel(dir.y) ==> in_slab(
        min.y,
        res,
        cell.y as int,
        number(origin.y) + number(t) * number(dir.y),
        slack,
    )
    &&& !parallel(dir.z) ==> in_slab(
        min.z,
        res,
        cell.z as int,
        number(origin.z) + number(t) * number(dir.z),
        slack,
    )
}

/// Along an axis, the place `t` along a ray is not before the voxel, up to `slack`.
pub open spec fn entered(
    o: Single,
    d: Single,
    min: Single,
    res: Single,
    index: int,
    t: Single,
    slack: real,
) -> bool {
    &&& number(d) > 0real ==> number(o) + number(t) * number(d) >= way_in(d, min, res, index) - slack
    &&& number(d) < 0real ==> number(o) + number(t) * number(d) <= way_in(d, min, res, index) + slack
}

pub open spec fn all_entered(
    scene: VoxelCollision,
    origin: Vec3,
    dir: Vec3,
    cell: Cell,
    t: Single,
    slack: real,
) -> bool {
    let min = scene.grid_min;
    let res = scene.voxel_resolution;
    &&& !parallel(dir.x) ==> entered(origin.x, dir.x, min.x, res, cell.x as int, t, slack)
    &&& !parallel(dir.y) ==> entered(origin.y, dir.y, min.y, res, cell.y as int, t, slack)
    &&& !parallel(dir.z) ==> entered(origin.z, dir.z, min.z, res, cell.z as int, t, slack)
}

/// Going on keeps a ray from being before a voxel.
proof fn lemma_stays_entered(
    o: Single,
    d: Single,
    min: Single,
    res: Single,
    index: int,
    t: Single,
    later: Single,
    back: real,
    bound: real,
    slack: real,
    more: real,
)
    requires
        size(number(d)) <= bound,
        0real <= back,
        number(t) - back <= number(later),
        entered(o, d, min, res, index, t, slack),
        slack + back * bound <= more,
    ensures
        entered(o, d, min, res, index, later, more),
{
    let a = number(t);
    let b = number(later);
    let k = number(d);
    lemma_along(a - back, b, k);
    assert((a - back) * k == a * k - back * k) by (nonlinear_arith);
    lemma_product(back, k, back, bound);
}

/// A step of a walk comes into the next voxel along all axes.
proof fn lemma_step_entered(
    scene: VoxelCollision,
    g: Arith,
    reach: real,
    error: real,
    bound: real,
    origin: Vec3,
    dir: Vec3,
    walk: RayWalk,
    slack: real,
    back: real,
    more: real,
    most: real,
)
    requires
        ray_within(scene, g, reach, error, bound, origin, dir),
        scene.num_voxels.holds(walk.cell),
        0real <= slack && slack <= 1real,
        2real * (bound * (bound * error)) <= 1real,
        keeps_track(scene, origin, dir, walk, slack, 2real * (bound * (bound * error))),
        0real <= back,
        number(walk.t) - back <= number(walk.next(g).t),
        all_entered(scene, origin, dir, walk.cell, walk.t, more),
        more + back * bound <= most,
        slack <= most,
    ensures
        all_entered(scene, origin, dir, walk.next(g).cell, walk.next(g).t, most),
{
    let min = scene.grid_min;
    let res = scene.voxel_resolution;
    let n = scene.num_voxels;
    let c = walk.cell;
    let m = walk.t_max;
    let e = walk.t_delta;
    let s = walk.step;
    let t = walk.t;
    let later = walk.next(g).t;
    lemma_step(scene, g, reach, error, bound, origin, dir, walk, slack);
    lemma_chosen(scene, origin, dir, walk, slack, 2real * (bound * (bound * error)));
    if !parallel(dir.x) {
        lemma_grows((c.x + 1) as real, (n.x + 1) as real, number(res));
        lemma_axis_step(
            g,
            reach,
            error,
            bound,
            origin.x,
            dir.x,
            min.x,
            res,
            c.x as int,
            m.x,
            e.x,
            s.x as int,
            slack,
        );
        lemma_stays_entered(
            origin.x,
            dir.x,
            min.x,
            res,
            c.x as int,
            t,
            later,
            back,
            bound,
            more,
            most,
        );
    }
    if !parallel(dir.y) {
        lemma_grows((c.y + 1) as real, (n.y + 1) as real, number(res));
        lemma_axis_step(
            g,
            reach,
            error,
            bound,
            origin.y,
            dir.y,
            min.y,
            res,
            c.y as int,
            m.y,
            e.y,
            s.y as int,
            slack,
        );
        lemma_stays_entered(
            origin.y,
            dir.y,
            min.y,
            res,
            c.y as int,
            t,
            later,
            back,
            bound,
            more,
            most,
        );
    }
    if !parallel(dir.z) {
        lemma_grows((c.z + 1) as real, (n.z + 1) as real, number(res));
        lemma_axis_step(
            g,
            reach,
            error,
            bound,
            origin.z,
            dir.z,
            min.z,
            res,
            c.z as int,
            m.z,
            e.z,
            s.z as int,
            slack,
        );
        lemma_stays_entered(
            origin.z,
            dir.z,
            min.z,
            res,
            c.z as int,
            t,
            later,
            back,
            bound,
            more,
            most,
        );
    }
}

/// A walk steps along an axis that the ray is not parallel to.
proof fn lemma_chosen(
    scene: VoxelCollision,
    origin: Vec3,
    dir: Vec3,
    walk: RayWalk,
    slack: real,
    unit: real,
)
    requires
        keeps_track(scene, origin, dir, walk, slack, unit),
        !parallel(dir.x) || !parallel(dir.y) || !parallel(dir.z),
    ensures
        walk.axis() == 0 ==> !parallel(dir.x),
        walk.axis() == 1 ==> !parallel(dir.y),
        walk.axis() == 2 ==> !parallel(dir.z),
        walk.axis() == 0 || walk.axis() == 1 || walk.axis() == 2,
{
    let m = walk.t_max;
    if finite(m.x) {
        lemma_below_infinity(m.x);
    }
    if finite(m.y) {
        lemma_below_infinity(m.y);
    }
    if finite(m.z) {
        lemma_below_infinity(m.z);
    }
}

/// A place in a voxel is, up to rounding, not past the boundary where the ray leaves
/// the voxel.
proof fn lemma_before_way_out(
    o: Single,
    d: Single,
    min: Single,
    res: Single,
    index: int,
    t: Single,
    t_max: Single,
    bound: real,
    slack: real,
    more: real,
)
    requires
        number(d) != 0real,
        size(number(d)) * bound >= 1real,
        bound >= 1real,
        in_slab(min, res, index, number(o) + number(t) * number(d), slack),
        meets(o, d, t_max, way_out(d, min, res, index), more),
        0real <= slack && 0real <= more,
    ensures
        number(t) - (slack + more) * bound <= number(t_max),
        entered(o, d, min, res, index, t, slack),
{
    let a = number(t);
    let b = number(t_max);
    let k = number(d);
    lemma_grows(0real, slack + more, bound);
    assert(0real * bound == 0real);
    if a > b {
        assert((a - b) * k == a * k - b * k) by (nonlinear_arith);
        if k > 0real {
            lemma_over_half(a - b, k, slack + more, bound);
        } else {
            assert((a - b) * (-k) == -((a - b) * k)) by (nonlinear_arith);
            lemma_over_half(a - b, -k, slack + more, bound);
        }
    }
}

/// How far, along the ray, the first step of a walk may go back by rounding.
pub open spec fn first_back(bound: real, error: real) -> real {
    (5real * (bound * error) + 12real * (bound * (bound * error))) * bound
}

/// The first step of a walk does not go back either, but for rounding: the walk comes
/// into its second voxel no earlier than into the grid.
pub proof fn law_first_step_goes_forward(
    scene: VoxelCollision,
    g: Arith,
    reach: real,
    error: real,
    bound: real,
    origin: Vec3,
    dir: Vec3,
    stretch: Stretch,
)
    requires
        ray_within(scene, g, reach, error, bound, origin, dir),
        12real * (bound * (bound * error)) <= 1real,
        scene.inside(g, origin, dir) == Some(stretch),
        finite(stretch.near),
    ensures
        ({
            let start = scene.walk_start(g, origin, dir, stretch.near);
            let next = walk_after(g, start, 1);
            &&& start.t == stretch.near
            &&& finite(next.t)
            &&& number(start.t) - first_back(bound, error) <= number(next.t)
            &&& all_entered(scene, origin, dir, start.cell, start.t, 5real * (bound * error))
        }),
{
    let w = bound * (bound * error);
    lemma_unit(bound, error);
    lemma_grows(0real, error, bound);
    assert(bound * 0real == 0real);
    let start = scene.walk_start(g, origin, dir, stretch.near);
    lemma_start(scene, g, reach, error, bound, origin, dir, stretch.near);
    lemma_start_in_voxel(scene, g, reach, error, bound, origin, dir, stretch);
    lemma_step(scene, g, reach, error, bound, origin, dir, start, 12real * w);
    lemma_chosen(scene, origin, dir, start, 12real * w, 2real * w);
    assert(walk_after(g, start, 0) == start);
    lemma_one_more(g, start, 0);
    let min = scene.grid_min;
    let res = scene.voxel_resolution;
    let c = start.cell;
    let m = start.t_max;
    let t = start.t;
    let slack = 5real * (bound * error);
    if !parallel(dir.x) {
        lemma_not_parallel(dir.x);
        lemma_before_way_out(
            origin.x,
            dir.x,
            min.x,
            res,
            c.x as int,
            t,
            m.x,
            bound,
            slack,
            12real * w,
        );
    }
    if !parallel(dir.y) {
        lemma_not_parallel(dir.y);
        lemma_before_way_out(
            origin.y,
            dir.y,
            min.y,
            res,
            c.y as int,
            t,
            m.y,
            bound,
            slack,
            12real * w,
        );
    }
    if !parallel(dir.z) {
        lemma_not_parallel(dir.z);
        lemma_before_way_out(
            origin.z,
            dir.z,
            min.z,
            res,
            c.z as int,
            t,
            m.z,
            bound,
            slack,
            12real * w,
        );
    }
}

/// How far off the place may be where a voxel is entered after `k` steps.
pub open spec fn stray(bound: real, error: real, k: nat) -> real {
    5real * (bound * error) + first_back(bound, error) * bound + drift(bound, error, k)
}

proof fn lemma_stray(bound: real, error: real, k: nat)
    requires
        0real <= error && bound >= 1real,
    ensures
        0real <= first_back(bound, error),
        0real <= first_back(bound, error) * bound,
        0real <= bound * error,
        drift(bound, error, k) <= stray(bound, error, k),
        5real * (bound * error) <= stray(bound, error, k),
        5real * (bound * error) + first_back(bound, error) * bound <= stray(bound, error, k),
        stray(bound, error, k) <= stray(bound, error, k + 1),
{
    lemma_unit(bound, error);
    lemma_grows(0real, error, bound);
    assert(bound * 0real == 0real && 0real * bound == 0real);
    lemma_grows(0real, 5real * (bound * error) + 12real * (bound * (bound * error)), bound);
    lemma_grows(0real, first_back(bound, error), bound);
    lemma_drift(bound, error, k);
}

/// A walk has come into its voxel along all axes.
proof fn lemma_walk_entered(
    scene: VoxelCollision,
    g: Arith,
    reach: real,
    error: real,
    bound: real,
    origin: Vec3,
    dir: Vec3,
    stretch: Stretch,
    k: nat,
)
    requires
        ray_within(scene, g, reach, error, bound, origin, dir),
        drift(bound, error, k) <= 1real,
        scene.inside(g, origin, dir) == Some(stretch),
        finite(stretch.near),
        forall|j: nat|
            j < k ==> scene.num_voxels.holds(
                (#[trigger] walk_after(
                    g,
                    scene.walk_start(g, origin, dir, stretch.near),
                    j,
                )).cell,
            ),
    ensures
        ({
            let walk = walk_after(g, scene.walk_start(g, origin, dir, stretch.near), k);
            all_entered(scene, origin, dir, walk.cell, walk.t, stray(bound, error, k))
        }),
    decreases k,
{
    let start = scene.walk_start(g, origin, dir, stretch.near);
    lemma_stray(bound, error, k);
    lemma_drift_grows(bound, error, 0, k);
    lemma_drift(bound, error, 0);
    law_first_step_goes_forward(scene, g, reach, error, bound, origin, dir, stretch);
    assert(walk_after(g, start, 0) == start);
    if k == 0 {
        lemma_entered_looser(
            scene,
            origin,
            dir,
            start.cell,
            start.t,
            5real * (bound * error),
            stray(bound, error, 0),
        );
    } else {
        let last = (k - 1) as nat;
        let walk = walk_after(g, start, last);
        lemma_stray(bound, error, last);
        lemma_drift(bound, error, last);
        lemma_start(scene, g, reach, error, bound, origin, dir, stretch.near);
        lemma_walk(scene, g, reach, error, bound, origin, dir, start, 0, last);
        lemma_one_more(g, start, last);
        lemma_drift_grows(bound, error, last, k);
        if last == 0 {
            lemma_step_entered(
                scene,
                g,
                reach,
                error,
                bound,
                origin,
                dir,
                start,
                drift(bound, error, 0),
                first_back(bound, error),
                5real * (bound * error),
                stray(bound, error, k),
            );
        } else {
            lemma_walk_entered(scene, g, reach, error, bound, origin, dir, stretch, last);
            lemma_step(scene, g, reach, error, bound, origin, dir, walk, drift(bound, error, last));
            lemma_order(walk.t, walk.next(g).t);
            assert(0real * bound == 0real);
            lemma_step_entered(
                scene,
                g,
                reach,
                error,
                bound,
                origin,
                dir,
                walk,
                drift(bound, error, last),
                0real,
                stray(bound, error, last),
                stray(bound, error, k),
            );
        }
    }
}

proof fn lemma_entered_looser(
    scene: VoxelCollision,
    origin: Vec3,
    dir: Vec3,
    cell: Cell,
    t: Single,
    slack: real,
    more: real,
)
    requires
        all_entered(scene, origin, dir, cell, t, slack),
        slack <= more,
    ensures
        all_entered(scene, origin, dir, cell, t, more),
{
}

/// A place that is not before a voxel and not past the boundary where the ray leaves
/// it lies in the voxel.
proof fn lemma_in_slab(
    o: Single,
    d: Single,
    min: Single,
    res: Single,
    index: int,
    t: Single,
    t_max: Single,
    slack: real,
    more: real,
)
    requires
        number(d) != 0real,
        finite(t),
        entered(o, d, min, res, index, t, more),
        meets(o, d, t_max, way_out(d, min, res, index), slack),
        t.at_most(t_max),
        slack <= more,
    ensures
        in_slab(min, res, index, number(o) + number(t) * number(d), more),
{
    lemma_order(t, t_max);
    lemma_along(number(t), number(t_max), number(d));
}

/// Wherever a walk has come, the place that it reports lies in its voxel, up to
/// rounding, along each axis that the ray is not parallel to.
pub proof fn law_walk_stays_on_the_ray(
    scene: VoxelCollision,
    g: Arith,
    reach: real,
    error: real,
    bound: real,
    origin: Vec3,
    dir: Vec3,
    stretch: Stretch,
    k: nat,
)
    requires
        ray_within(scene, g, reach, error, bound, origin, dir),
        drift(bound, error, k) <= 1real,
        scene.inside(g, origin, dir) == Some(stretch),
        finite(stretch.near),
        forall|j: nat|
            j < k ==> scene.num_voxels.holds(
                (#[trigger] walk_after(
                    g,
                    scene.walk_start(g, origin, dir, stretch.near),
                    j,
                )).cell,
            ),
    ensures
        ({
            let walk = walk_after(g, scene.walk_start(g, origin, dir, stretch.near), k);
            &&& finite(walk.t)
            &&& all_in_slab(scene, origin, dir, walk.cell, walk.t, stray(bound, error, k))
            &&& k > 0 ==> comes_in(
                scene,
                origin,
                dir,
                walk.cell,
                walk.t,
                stray(bound, error, k),
            )
        }),
{
    let start = scene.walk_start(g, origin, dir, stretch.near);
    let walk = walk_after(g, start, k);
    let slack = drift(bound, error, k);
    let more = stray(bound, error, k);
    lemma_stray(bound, error, k);
    lemma_drift_grows(bound, error, 0, k);
    lemma_drift(bound, error, 0);
    if k == 0 {
        assert(walk == start);
        lemma_start_in_voxel(scene, g, reach, error, bound, origin, dir, stretch);
    } else {
        lemma_start(scene, g, reach, error, bound, origin, dir, stretch.near);
        lemma_walk(scene, g, reach, error, bound, origin, dir, start, 0, k);
        lemma_walk_entered(scene, g, reach, error, bound, origin, dir, stretch, k);
        lemma_comes_in_looser(scene, origin, dir, walk.cell, walk.t, slack, more);
        let min = scene.grid_min;
        let res = scene.voxel_resolution;
        let c = walk.cell;
        let m = walk.t_max;
        if !parallel(dir.x) {
            lemma_not_parallel(dir.x);
            lemma_in_slab(
                origin.x,
                dir.x,
                min.x,
                res,
                c.x as int,
                walk.t,
                m.x,
                slack,
                more,
            );
        }
        if !parallel(dir.y) {
            lemma_not_parallel(dir.y);
            lemma_in_slab(
                origin.y,
                dir.y,
                min.y,
                res,
                c.y as int,
                walk.t,
                m.y,
                slack,
                more,
            );
        }
        if !parallel(dir.z) {
            lemma_not_parallel(dir.z);
            lemma_in_slab(
                origin.z,
                dir.z,
                min.z,
                res,
                c.z as int,
                walk.t,
                m.z,
                slack,
                more,
            );
        }
    }
}

/// A place lies in a voxel, up to `slack`, along each axis that the ray is not
/// parallel to.
pub open spec fn lies_in(scene: VoxelCollision, dir: Vec3, cell: Cell, pos: Vec3, slack: real) -> bool {
    let min = scene.grid_min;
    let res = scene.voxel_resolution;
    &&& !parallel(dir.x) ==> in_slab(min.x, res, cell.x as int, number(pos.x), slack)
    &&& !parallel(dir.y) ==> in_slab(min.y, res, cell.y as int, number(pos.y), slack)
    &&& !parallel(dir.z) ==> in_slab(min.z, res, cell.z as int, number(pos.z), slack)
}

/// A place lies, up to `slack`, on a face of a voxel that looks against the direction
/// of the ray.
pub open spec fn lies_on_face(
    scene: VoxelCollision,
    dir: Vec3,
    cell: Cell,
    pos: Vec3,
    slack: real,
) -> bool {
    let min = scene.grid_min;
    let res = scene.voxel_resolution;
    ||| !parallel(dir.x) && close(
        number(pos.x),
        way_in(dir.x, min.x, res, cell.x as int),
        slack,
    )
    ||| !parallel(dir.y) && close(
        number(pos.y),
        way_in(dir.y, min.y, res, cell.y as int),
        slack,
    )
    ||| !parallel(dir.z) && close(
        number(pos.z),
        way_in(dir.z, min.z, res, cell.z as int),
        slack,
    )
}

/// A place along a ray as the arithmetic has it, where it lies in the grid.
proof fn lemma_pos(
    g: Arith,
    reach: real,
    error: real,
    bound: real,
    o: Single,
    d: Single,
    min: Single,
    res: Single,
    index: int,
    n: u32,
    t: Single,
    slack: real,
)
    requires
        axis_within(g, reach, error, bound, o, d, min, res),
        0 <= index < n,
        (n + 1) as real * number(res) <= bound,
        0real <= slack && slack <= 1real,
        finite(t),
        in_slab(min, res, index, number(o) + number(t) * number(d), slack),
    ensures
        close(
            number(g(Op::Add(o, g(Op::Mul(d, t))))),
            number(o) + number(t) * number(d),
            2real * error,
        ),
{
    lemma_grows(1real, bound, bound);
    lemma_grows((index + 1) as real, (n + 1) as real, number(res));
    lemma_plane_sizes(min, res, index, bound);
    assert(number(d) * number(t) == number(t) * number(d)) by (nonlinear_arith);
    let along = g(Op::Mul(d, t));
    assert(rounded(along, number(d) * number(t), reach, error));
    assert(rounded(g(Op::Add(o, along)), number(o) + number(along), reach, error));
}

/// The places of a walk as the arithmetic has them.
proof fn lemma_places(
    scene: VoxelCollision,
    g: Arith,
    reach: real,
    error: real,
    bound: real,
    origin: Vec3,
    dir: Vec3,
    cell: Cell,
    t: Single,
    slack: real,
)
    requires
        ray_within(scene, g, reach, error, bound, origin, dir),
        scene.num_voxels.holds(cell),
        0real <= slack && slack <= 1real,
        finite(t),
        all_in_slab(scene, origin, dir, cell, t, slack),
    ensures
        lies_in(scene, dir, cell, hit_at(g, origin, dir, t).pos, slack + 2real * error),
        comes_in(scene, origin, dir, cell, t, slack) ==> lies_on_face(
            scene,
            dir,
            cell,
            hit_at(g, origin, dir, t).pos,
            slack + 2real * error,
        ),
{
    let min = scene.grid_min;
    let res = scene.voxel_resolution;
    let n = scene.num_voxels;
    if !parallel(dir.x) {
        lemma_pos(
            g,
            reach,
            error,
            bound,
            origin.x,
            dir.x,
            min.x,
            res,
            cell.x as int,
            n.x,
            t,
            slack,
        );
    }
    if !parallel(dir.y) {
        lemma_pos(
            g,
            reach,
            error,
            bound,
            origin.y,
            dir.y,
            min.y,
            res,
            cell.y as int,
            n.y,
            t,
            slack,
        );
    }
    if !parallel(dir.z) {
        lemma_pos(
            g,
            reach,
            error,
            bound,
            origin.z,
            dir.z,
            min.z,
            res,
            cell.z as int,
            n.z,
            t,
            slack,
        );
    }
}

/// What a ray hits: the hit lies in a solid voxel and on a face of it that looks
/// against the ray, unless the ray starts in the voxel or comes into the grid there.
pub open spec fn strikes(
    scene: VoxelCollision,
    g: Arith,
    origin: Vec3,
    dir: Vec3,
    cell: Cell,
    hit: RayHit,
    slack: real,
) -> bool {
    &&& scene.num_voxels.holds(cell)
    &&& scene.solid(cell) == Some(true)
    &&& lies_in(scene, dir, cell, hit.pos, slack)
    &&& lies_on_face(scene, dir, cell, hit.pos, slack) || (scene.inside(
        g,
        origin,
        dir,
    ) matches Some(stretch) && hit == hit_at(g, origin, dir, stretch.near))
}

/// The place reported for a hit lies, up to rounding, in the solid voxel hit, and on
/// the face through which the ray comes into it, whatever the signs of the direction.
/// Where the ray starts in that voxel, or comes into the grid there, it is the place
/// where it does so.
pub proof fn law_hit_lies_on_the_voxel_hit(
    scene: VoxelCollision,
    g: Arith,
    reach: real,
    error: real,
    bound: real,
    origin: Vec3,
    dir: Vec3,
    max_dist: Single,
    steps: nat,
)
    requires
        ray_within(scene, g, reach, error, bound, origin, dir),
        steps == scene.num_voxels.x + scene.num_voxels.y + scene.num_voxels.z,
        stray(bound, error, steps) <= 1real,
    ensures
        scene.cast(g, origin, dir, max_dist) matches Ok(Some(hit)) ==> exists|cell: Cell| #[trigger]
            strikes(
                scene,
                g,
                origin,
                dir,
                cell,
                hit,
                stray(bound, error, steps) + 2real * error,
            ),
{
    if let Ok(Some(hit)) = scene.cast(g, origin, dir, max_dist) {
        let (stretch, k) = lemma_found(scene, g, origin, dir, max_dist, steps, hit);
        lemma_struck(scene, g, reach, error, bound, origin, dir, stretch, k, steps);
    }
}

/// A hit is where a walk, `k` steps from where it comes into the grid, has come into a
/// solid voxel.
proof fn lemma_found(
    scene: VoxelCollision,
    g: Arith,
    origin: Vec3,
    dir: Vec3,
    max_dist: Single,
    steps: nat,
    hit: RayHit,
) -> (r: (Stretch, nat))
    requires
        scene.cast(g, origin, dir, max_dist) == Ok::<Option<RayHit>, Fault>(Some(hit)),
        steps == scene.num_voxels.x + scene.num_voxels.y + scene.num_voxels.z,
    ensures
        scene.inside(g, origin, dir) == Some(r.0),
        finite(r.0.near),
        ({
            let start = scene.walk_start(g, origin, dir, r.0.near);
            let walk = walk_after(g, start, r.1);
            &&& r.1 < steps
            &&& hit == hit_at(g, origin, dir, walk.t)
            &&& scene.solid(walk.cell) == Some(true)
            &&& forall|j: nat|
                0 < j && j <= r.1 ==> scene.num_voxels.holds(
                    (#[trigger] walk_after(g, start, j)).cell,
                )
        }),
{
    law_ray_is_clipped_to_grid(scene, g, origin, dir);
    let stretch = scene.inside(g, origin, dir)->0;
    let near = stretch.near;
    assert(finite(near));
    let start = scene.walk_start(g, origin, dir, near);
    law_ray_stops_at_first_solid(scene, g, start, dir, max_dist, steps);
    let t = scene.walk_end(g, start, dir, max_dist, steps)->Hit_0;
    let k = choose|k: nat|
        k < steps && walk_after(g, start, k).t == t && #[trigger] first_solid_after(
            scene,
            g,
            start,
            dir,
            max_dist,
            k,
        );
    assert(hit == hit_at(g, origin, dir, t));
    (stretch, k)
}

proof fn lemma_struck(
    scene: VoxelCollision,
    g: Arith,
    reach: real,
    error: real,
    bound: real,
    origin: Vec3,
    dir: Vec3,
    stretch: Stretch,
    k: nat,
    steps: nat,
)
    requires
        ray_within(scene, g, reach, error, bound, origin, dir),
        stray(bound, error, steps) <= 1real,
        k < steps,
        scene.inside(g, origin, dir) == Some(stretch),
        finite(stretch.near),
        forall|j: nat|
            0 < j && j <= k ==> scene.num_voxels.holds(
                (#[trigger] walk_after(
                    g,
                    scene.walk_start(g, origin, dir, stretch.near),
                    j,
                )).cell,
            ),
        scene.solid(
            walk_after(g, scene.walk_start(g, origin, dir, stretch.near), k).cell,
        ) == Some(true),
    ensures
        ({
            let walk = walk_after(g, scene.walk_start(g, origin, dir, stretch.near), k);
            strikes(
                scene,
                g,
                origin,
                dir,
                walk.cell,
                hit_at(g, origin, dir, walk.t),
                stray(bound, error, steps) + 2real * error,
            )
        }),
{
    let near = stretch.near;
    let start = scene.walk_start(g, origin, dir, near);
    let walk = walk_after(g, start, k);
    let slack = stray(bound, error, k);
    let more = stray(bound, error, steps);
    assert(walk_after(g, start, 0) == start);
    lemma_start(scene, g, reach, error, bound, origin, dir, near);
    assert forall|j: nat| j <= k implies scene.num_voxels.holds(
        (#[trigger] walk_after(g, start, j)).cell,
    ) by {
        if j == 0 {
            assert(walk_after(g, start, j) == start);
        }
    }
    lemma_stray(bound, error, k);
    lemma_stray(bound, error, steps);
    lemma_drift_grows(bound, error, k, steps);
    assert(slack <= more);
    law_walk_stays_on_the_ray(scene, g, reach, error, bound, origin, dir, stretch, k);
    lemma_places(scene, g, reach, error, bound, origin, dir, walk.cell, walk.t, slack);
    lemma_lies_looser(
        scene,
        dir,
        walk.cell,
        hit_at(g, origin, dir, walk.t).pos,
        slack + 2real * error,
        more + 2real * error,
    );
}

proof fn lemma_lies_looser(
    scene: VoxelCollision,
    dir: Vec3,
    cell: Cell,
    pos: Vec3,
    slack: real,
    more: real,
)
    requires
        slack <= more,
        lies_in(scene, dir, cell, pos, slack),
    ensures
        lies_in(scene, dir, cell, pos, more),
        lies_on_face(scene, dir, cell, pos, slack) ==> lies_on_face(scene, dir, cell, pos, more),
{
}

} // verus!
