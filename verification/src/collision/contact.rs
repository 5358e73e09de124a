//! What a voxel does to a sphere, in numbers.

use crate::arith::{
    greater, lesser, vec_difference, vec_dot, vec_greater, vec_lesser, Arith, Op, Vec3, ZERO,
};
use crate::collision::capsule::{escape, shortest, sphere_push, INSIDE_EPSILON};
use crate::rounding::{
    close, finite, lemma_divides, lemma_few_numbers, lemma_grows, lemma_order, lemma_product,
    lemma_shrinks, lemma_signs, lemma_size_product, lemma_square_order, number, root_rounded,
    rounded, rounds, size, square, vec_finite,
};
use crate::single::{single, Single};
use vstd::prelude::*;

verus! {

/// The number between `low` and `high` that is nearest to `at`.
pub open spec fn nearest(at: real, low: real, high: real) -> real {
    if at < low {
        low
    } else if at > high {
        high
    } else {
        at
    }
}

/// The way, along one axis, from the nearest point of an interval.
#[verifier::opaque]
pub open spec fn offset(at: real, low: real, high: real) -> real {
    at - nearest(at, low, high)
}

/// The square of the distance from a place to the nearest point of a box.
pub open spec fn gap_squared(x: real, y: real, z: real, low: Vec3, high: Vec3) -> real {
    square(offset(x, number(low.x), number(high.x))) + square(
        offset(y, number(low.y), number(high.y)),
    ) + square(offset(z, number(low.z), number(high.z)))
}

/// All coordinates are no larger than `bound`.
pub open spec fn vec_within(v: Vec3, bound: real) -> bool {
    &&& vec_finite(v)
    &&& size(number(v.x)) <= bound && size(number(v.y)) <= bound && size(number(v.z)) <= bound
}

/// A sphere and a box that the arithmetic can handle.
pub open spec fn manageable(
    g: Arith,
    reach: real,
    error: real,
    bound: real,
    sphere: Vec3,
    radius: Single,
    low: Vec3,
    high: Vec3,
) -> bool {
    &&& rounds(g, reach, error)
    &&& error <= 1real && bound >= 1real && reach >= 40real * (bound * bound)
    &&& vec_within(sphere, bound) && vec_within(low, bound) && vec_within(high, bound)
    &&& finite(radius) && 0real <= number(radius) && number(radius) <= bound
    &&& number(low.x) <= number(high.x) && number(low.y) <= number(high.y) && number(low.z)
        <= number(high.z)
}

/// What is left along one axis from the nearest point of an interval.
proof fn lemma_away(
    g: Arith,
    reach: real,
    error: real,
    bound: real,
    at: Single,
    low: Single,
    high: Single,
) -> (r: (Single, real))
    requires
        rounds(g, reach, error),
        error <= 1real && bound >= 1real && reach >= 4real * bound,
        finite(at) && finite(low) && finite(high),
        size(number(at)) <= bound && size(number(low)) <= bound && size(number(high)) <= bound,
        number(low) <= number(high),
    ensures
        r.0 == g(Op::Sub(at, lesser(greater(at, low), high))),
        r.1 == offset(number(at), number(low), number(high)),
        finite(r.0),
        close(number(r.0), r.1, error),
        r.1 == 0real ==> number(r.0) == 0real,
        r.1 >= 0real ==> number(r.0) >= 0real,
        r.1 <= 0real ==> number(r.0) <= 0real,
        size(r.1) <= 2real * bound,
{
    lemma_few_numbers();
    lemma_order(low, at);
    let above = greater(at, low);
    lemma_order(above, high);
    let held = lesser(above, high);
    assert(number(held) == nearest(number(at), number(low), number(high)));
    let a = g(Op::Sub(at, held));
    reveal(offset);
    let exact = number(at) - number(held);
    assert(rounded(a, exact, reach, error));
    lemma_order(single(ZERO), a);
    lemma_order(a, single(ZERO));
    (a, exact)
}

proof fn lemma_square_close(a: real, b: real, bound: real, error: real)
    requires
        close(a, b, error),
        size(b) <= 2real * bound,
        0real <= error && error <= 1real && bound >= 1real,
    ensures
        close(square(a), square(b), 5real * (bound * error)),
        square(a) <= 9real * (bound * bound),
        0real <= square(a),
{
    lemma_product(a - b, a + b, error, 5real * bound);
    assert((a - b) * (a + b) == a * a - b * b) by (nonlinear_arith);
    assert(error * (5real * bound) == 5real * (bound * error)) by (nonlinear_arith);
    lemma_product(a, a, 3real * bound, 3real * bound);
    assert(3real * bound * (3real * bound) == 9real * (bound * bound)) by (nonlinear_arith);
    assert(a * a >= 0real) by (nonlinear_arith);
}

/// The squared distance, rounded.
pub proof fn lemma_squared(
    g: Arith,
    reach: real,
    error: real,
    bound: real,
    a: Vec3,
    x: real,
    y: real,
    z: real,
)
    requires
        rounds(g, reach, error),
        error <= 1real && bound >= 1real && reach >= 40real * (bound * bound),
        vec_finite(a),
        close(number(a.x), x, error) && close(number(a.y), y, error) && close(
            number(a.z),
            z,
            error,
        ),
        size(x) <= 2real * bound && size(y) <= 2real * bound && size(z) <= 2real * bound,
    ensures
        finite(vec_dot(g, a, a)),
        0real <= number(vec_dot(g, a, a)),
        close(
            number(vec_dot(g, a, a)),
            square(x) + square(y) + square(z),
            20real * (bound * error),
        ),
{
    lemma_few_numbers();
    lemma_square_close(number(a.x), x, bound, error);
    lemma_square_close(number(a.y), y, bound, error);
    lemma_square_close(number(a.z), z, bound, error);
    assert(bound * error >= error && bound * bound >= 1real) by (nonlinear_arith)
        requires
            bound >= 1real,
            error >= 0real,
    ;
    let xx = g(Op::Mul(a.x, a.x));
    let yy = g(Op::Mul(a.y, a.y));
    let zz = g(Op::Mul(a.z, a.z));
    assert(rounded(xx, square(number(a.x)), reach, error));
    assert(rounded(yy, square(number(a.y)), reach, error));
    assert(rounded(zz, square(number(a.z)), reach, error));
    lemma_order(single(ZERO), xx);
    lemma_order(single(ZERO), yy);
    lemma_order(single(ZERO), zz);
    let xy = g(Op::Add(xx, yy));
    assert(rounded(xy, number(xx) + number(yy), reach, error));
    lemma_order(single(ZERO), xy);
    let all = g(Op::Add(xy, zz));
    assert(rounded(all, number(xy) + number(zz), reach, error));
    lemma_order(single(ZERO), all);
}

/// The root of a squared distance that is not too small.
proof fn lemma_root(
    s: real,
    root: real,
    d: real,
    bound: real,
    error: real,
)
    requires
        0real <= error && error <= 1real && bound >= 1real,
        0real < d && d <= 4real * bound,
        close(s, d * d, 20real * (bound * error)),
        100real * (bound * error) <= d * d,
        100real * error <= d,
        0real <= root,
        s <= square(root + error),
        root >= error ==> square(root - error) <= s,
    ensures
        d / 2real <= root && root <= 2real * d,
        close(root * d, d * d, 40real * (bound * error)),
{
    let w = bound * error;
    lemma_grows(1real, bound, error);
    let dd = d * d;
    assert(square(3real * d / 5real) == 9real * dd / 25real) by (nonlinear_arith)
        requires
            dd == d * d,
    ;
    assert(square(6real * d / 5real) == 36real * dd / 25real) by (nonlinear_arith)
        requires
            dd == d * d,
    ;
    lemma_square_order(3real * d / 5real, root + error);
    lemma_square_order(root - error, 6real * d / 5real);
    // The squares lie close together.
    let rr = root * root;
    let re = root * error;
    assert(square(root + error) == rr + 2real * re + error * error) by (nonlinear_arith)
        requires
            rr == root * root,
            re == root * error,
    ;
    assert(square(root - error) == rr - 2real * re + error * error) by (nonlinear_arith)
        requires
            rr == root * root,
            re == root * error,
    ;
    lemma_grows(root, 8real * bound, error);
    assert(8real * bound * error == 8real * w) by (nonlinear_arith)
        requires
            w == bound * error,
    ;
    lemma_grows(error, 1real, error);
    assert(error * error >= 0real) by (nonlinear_arith);
    assert(close(rr, dd, 38real * w));
    let apart = size(root - d);
    lemma_size_product(root - d, root + d);
    assert((root - d) * (root + d) == rr - dd) by (nonlinear_arith)
        requires
            rr == root * root,
            dd == d * d,
    ;
    lemma_grows(d, root + d, apart);
    lemma_size_product(root - d, d);
    assert((root - d) * d == root * d - dd) by (nonlinear_arith)
        requires
            dd == d * d,
    ;
}

/// What a push along one axis leaves between a place and the nearest point.
proof fn lemma_axis_push(
    exact: real,
    a: real,
    d: real,
    root: real,
    radius: real,
    depth: real,
    k: real,
    by: real,
    bound: real,
    error: real,
)
    requires
        0real <= error && error <= 1real && bound >= 1real,
        0real < d && d <= 4real * bound,
        d / 2real <= root && root <= 2real * d,
        close(root * d, d * d, 40real * (bound * error)),
        100real * (bound * error) <= d * d,
        size(exact) <= d,
        close(a, exact, error),
        0real <= radius && radius <= bound,
        close(depth, radius - root, error),
        0real <= depth,
        close(k * root, depth, error * root),
        close(by, a * k, error),
    ensures
        size(((exact + by) * d - radius * exact) * d) <= 500real * (bound * (bound * (bound
            * error))),
{
    let w = bound * error;
    let w2 = bound * w;
    let w3 = bound * w2;
    lemma_grows(1real, bound, error);
    lemma_grows(1real, bound, w);
    lemma_grows(1real, bound, w2);
    lemma_grows(error, 1real, bound);
    let turned = k * root;
    lemma_grows(root, 8real * bound, error);
    assert(8real * bound * error == 8real * w) by (nonlinear_arith)
        requires
            w == bound * error,
    ;
    assert(root * error == error * root) by (nonlinear_arith);
    let off = root + turned - radius;
    assert(size(off) <= 9real * w);
    let moved = exact + by;
    let first = exact * off;
    let second = (a - exact) * turned;
    let third = (by - a * k) * root;
    lemma_split(exact, a, root, radius, k, by);
    lemma_product(exact, off, 4real * bound, 9real * w);
    assert(4real * bound * (9real * w) == 36real * w2) by (nonlinear_arith)
        requires
            w2 == bound * w,
    ;
    assert(size(turned) <= 10real * bound);
    lemma_product(a - exact, turned, error, 10real * bound);
    assert(error * (10real * bound) == 10real * w) by (nonlinear_arith)
        requires
            w == bound * error,
    ;
    lemma_product(by - a * k, root, error, 8real * bound);
    assert(error * (8real * bound) == 8real * w) by (nonlinear_arith)
        requires
            w == bound * error,
    ;
    let miss = moved * root - radius * exact;
    assert(size(miss) <= 54real * w2);
    lemma_moved_size(exact, moved, d, root, radius, bound, error);
    let gap = d * d - root * d;
    lemma_product(moved, gap, 7real * (bound * bound), 40real * w);
    assert(7real * (bound * bound) * (40real * w) == 280real * w3) by (nonlinear_arith)
        requires
            w2 == bound * w,
            w3 == bound * w2,
    ;
    lemma_product(miss, d, 54real * w2, 4real * bound);
    assert(54real * w2 * (4real * bound) == 216real * w3) by (nonlinear_arith)
        requires
            w3 == bound * w2,
    ;
    assert((moved * d - radius * exact) * d == miss * d + moved * gap) by (nonlinear_arith)
        requires
            miss == moved * root - radius * exact,
            gap == d * d - root * d,
    ;
}

proof fn lemma_split(exact: real, a: real, root: real, radius: real, k: real, by: real)
    ensures
        (exact + by) * root - radius * exact == exact * (root + k * root - radius) + (a - exact) * (k
            * root) + (by - a * k) * root,
{
    assert((exact + by) * root - radius * exact == exact * (root + k * root - radius) + (a - exact)
        * (k * root) + (by - a * k) * root) by (nonlinear_arith);
}

proof fn lemma_moved_size(
    exact: real,
    moved: real,
    d: real,
    root: real,
    radius: real,
    bound: real,
    error: real,
)
    requires
        0real <= error && error <= 1real && bound >= 1real,
        0real < d && d <= 4real * bound,
        d / 2real <= root && root <= 2real * d,
        100real * (bound * error) <= d * d,
        size(exact) <= d,
        0real <= radius && radius <= bound,
        size(moved * root - radius * exact) <= 54real * (bound * (bound * error)),
    ensures
        size(moved) <= 7real * (bound * bound),
{
    let b2 = bound * bound;
    lemma_grows(1real, bound, bound);
    lemma_grows(100real * (bound * error), d * d, bound);
    assert(bound * (100real * (bound * error)) == 100real * (bound * (bound * error)))
        by (nonlinear_arith);
    lemma_grows(d, 4real * bound, d);
    lemma_grows(d * d, 4real * bound * d, bound);
    assert(bound * (4real * bound * d) == 4real * (b2 * d)) by (nonlinear_arith)
        requires
            b2 == bound * bound,
    ;
    lemma_product(radius, exact, bound, d);
    lemma_grows(bound, b2, d);
    let s = size(moved);
    lemma_size_product(moved, root);
    lemma_grows(d / 2real, root, s);
    assert(s * (d / 2real) == s * d / 2real) by (nonlinear_arith);
    assert(s * d <= 7real * (b2 * d));
    assert(7real * (b2 * d) == 7real * b2 * d) by (nonlinear_arith);
    lemma_shrinks(s, 7real * b2, d);
}

/// A part of what is left of a vector of length `d` once it is stretched to
/// `radius`.
proof fn lemma_part(x: real, v: real, d: real, radius: real, off: real)
    requires
        0real < d,
        0real <= radius,
        0real <= off,
        size(x) <= d,
        size((v * d - radius * x) * d) <= off,
    ensures
        square(v) * (d * d) >= square(radius) * square(x) - 2real * (radius * off),
{
    let m = v * d - radius * x;
    let n = x * m;
    let s = size(m);
    lemma_size_product(m, d);
    lemma_product(x, m, d, s);
    assert(d * s == s * d) by (nonlinear_arith);
    assert(-off <= n);
    lemma_grows(-off, n, radius);
    assert(radius * (-off) == -(radius * off)) by (nonlinear_arith);
    let goal = radius * x;
    let lead = v * d;
    assert(lead == goal + m);
    assert(m * m >= 0real) by (nonlinear_arith);
    assert((goal + m) * (goal + m) == goal * goal + 2real * (goal * m) + m * m)
        by (nonlinear_arith);
    assert(goal * m == radius * n) by (nonlinear_arith)
        requires
            goal == radius * x,
            n == x * m,
    ;
    assert(lead * lead == square(v) * (d * d)) by (nonlinear_arith)
        requires
            lead == v * d,
    ;
    assert(goal * goal == square(radius) * square(x)) by (nonlinear_arith)
        requires
            goal == radius * x,
    ;
}

/// No part of a vector is longer than the vector.
proof fn lemma_part_size(x: real, y: real, z: real, d: real)
    requires
        0real < d,
        square(x) + square(y) + square(z) == d * d,
    ensures
        size(x) <= d,
{
    assert(y * y >= 0real && z * z >= 0real) by (nonlinear_arith);
    lemma_square_order(x, d);
    assert((-x) * (-x) == x * x) by (nonlinear_arith);
    lemma_square_order(-x, d);
}

proof fn lemma_not_negative(a: real)
    ensures
        square(a) >= 0real,
{
    assert(a * a >= 0real) by (nonlinear_arith);
}

/// What the push of a sphere is made of.
proof fn lemma_away_of(
    g: Arith,
    reach: real,
    error: real,
    bound: real,
    sphere: Vec3,
    radius: Single,
    low: Vec3,
    high: Vec3,
) -> (r: Vec3)
    requires
        manageable(g, reach, error, bound, sphere, radius, low, high),
    ensures
        r == vec_difference(g, sphere, vec_lesser(vec_greater(sphere, low), high)),
        vec_finite(r),
        leans(number(r.x), number(sphere.x), number(low.x), number(high.x), error),
        leans(number(r.y), number(sphere.y), number(low.y), number(high.y), error),
        leans(number(r.z), number(sphere.z), number(low.z), number(high.z), error),
        ({
            let squared = vec_dot(g, r, r);
            let gap = gap_squared(
                number(sphere.x),
                number(sphere.y),
                number(sphere.z),
                low,
                high,
            );
            &&& finite(squared) && 0real <= number(squared)
            &&& close(number(squared), gap, 20real * (bound * error))
            &&& 0real <= gap && gap <= 12real * (bound * bound)
        }),
{
    lemma_grows(1real, bound, bound);
    let (x, ex) = lemma_away(g, reach, error, bound, sphere.x, low.x, high.x);
    let (y, ey) = lemma_away(g, reach, error, bound, sphere.y, low.y, high.y);
    let (z, ez) = lemma_away(g, reach, error, bound, sphere.z, low.z, high.z);
    let away = Vec3 { x, y, z };
    lemma_squared(g, reach, error, bound, away, ex, ey, ez);
    lemma_product(ex, ex, 2real * bound, 2real * bound);
    lemma_product(ey, ey, 2real * bound, 2real * bound);
    lemma_product(ez, ez, 2real * bound, 2real * bound);
    assert(2real * bound * (2real * bound) == 4real * (bound * bound)) by (nonlinear_arith);
    lemma_not_negative(ex);
    lemma_not_negative(ey);
    lemma_not_negative(ez);
    away
}

/// `a` points, along one axis, from the nearest point of an interval to a place,
/// and is as long as the way up to rounding.
pub open spec fn leans(a: real, at: real, low: real, high: real, error: real) -> bool {
    let exact = offset(at, low, high);
    &&& close(a, exact, error)
    &&& exact >= 0real ==> a >= 0real
    &&& exact <= 0real ==> a <= 0real
}

/// A place that has been moved the way it leans has the same nearest point.
proof fn lemma_same_nearest(at: real, low: real, high: real, by: real)
    requires
        low <= high,
        offset(at, low, high) >= 0real ==> by >= 0real,
        offset(at, low, high) <= 0real ==> by <= 0real,
    ensures
        offset(at + by, low, high) == offset(at, low, high) + by,
{
    reveal(offset);
}

/// One coordinate of a push that is scaled from the way to the nearest point.
proof fn lemma_scaled(g: Arith, reach: real, error: real, a: Single, k: Single)
    requires
        rounds(g, reach, error),
        finite(a),
        finite(k),
        0real <= number(k),
        size(number(a) * number(k)) <= reach,
    ensures
        finite(g(Op::Mul(a, k))),
        close(number(g(Op::Mul(a, k))), number(a) * number(k), error),
        number(a) >= 0real ==> number(g(Op::Mul(a, k))) >= 0real,
        number(a) <= 0real ==> number(g(Op::Mul(a, k))) <= 0real,
{
    lemma_few_numbers();
    let r = g(Op::Mul(a, k));
    let x = number(a);
    let y = number(k);
    if x >= 0real {
        lemma_grows(0real, x, y);
        assert(0real * y == 0real);
    }
    if x <= 0real {
        lemma_grows(x, 0real, y);
        assert(0real * y == 0real);
    }
    assert(rounded(r, x * y, reach, error));
    lemma_order(single(ZERO), r);
    lemma_order(r, single(ZERO));
}

proof fn lemma_below_reach(r: real, bound: real, reach: real)
    requires
        0real <= r && r <= bound,
        bound >= 1real,
        reach >= 40real * (bound * bound),
    ensures
        r * r <= reach,
        r * r <= square(reach),
        bound <= reach,
        0real <= r * r,
        1real <= reach,
{
    lemma_grows(1real, bound, bound);
    lemma_product(r, r, bound, bound);
    assert(r * r >= 0real) by (nonlinear_arith);
    lemma_grows(1real, reach, reach);
}

/// Distance and depth of a sphere that is reached into.
proof fn lemma_depth(
    g: Arith,
    reach: real,
    error: real,
    bound: real,
    squared: Single,
    radius: Single,
)
    requires
        rounds(g, reach, error),
        error <= 1real && bound >= 1real,
        reach >= 40real * (bound * bound),
        finite(radius) && 0real <= number(radius) && number(radius) <= bound,
        finite(squared) && 0real <= number(squared),
        !g(Op::Mul(radius, radius)).at_most(squared),
    ensures
        ({
            let root = g(Op::Sqrt(squared));
            let depth = g(Op::Sub(radius, root));
            &&& finite(root) && finite(depth)
            &&& 0real <= number(root)
            &&& number(squared) <= square(number(root) + error)
            &&& number(root) >= error ==> square(number(root) - error) <= number(squared)
            &&& close(number(depth), number(radius) - number(root), error)
            &&& 0real <= number(depth) && number(depth) <= number(radius)
        }),
{
    lemma_few_numbers();
    let zero = single(ZERO);
    let root = g(Op::Sqrt(squared));
    lemma_below_reach(number(radius), bound, reach);
    let rr = g(Op::Mul(radius, radius));
    assert(rounded(rr, number(radius) * number(radius), reach, error));
    lemma_order(rr, squared);
    assert(number(squared) <= square(number(radius)));
    assert(root_rounded(root, number(squared), reach, error));
    lemma_order(zero, root);
    lemma_order(root, radius);
    let depth = g(Op::Sub(radius, root));
    assert(rounded(depth, number(radius) - number(root), reach, error));
    lemma_order(zero, depth);
    lemma_order(depth, radius);
}

proof fn lemma_ratio_size(h: real, t: real, d: real, bound: real, reach: real)
    requires
        0real < d,
        d / 2real <= t,
        0real <= h && h <= bound,
        reach * d >= 8real * bound,
    ensures
        h / t * t == h,
        0real <= h / t,
        h / t <= reach,
{
    lemma_divides(h, t);
    let q = h / t;
    lemma_grows(d / 2real, t, q);
    assert(q * (d / 2real) == q * d / 2real) by (nonlinear_arith);
    lemma_shrinks(q, reach, d);
}

/// The scale of the push of a sphere.
proof fn lemma_ratio(
    g: Arith,
    reach: real,
    error: real,
    bound: real,
    depth: Single,
    root: Single,
    d: real,
)
    requires
        rounds(g, reach, error),
        0real < d,
        d / 2real <= number(root),
        finite(root) && finite(depth),
        0real <= number(depth) && number(depth) <= bound,
        reach * d >= 8real * bound,
    ensures
        ({
            let k = g(Op::Div(depth, root));
            &&& finite(k)
            &&& 0real <= number(k)
            &&& close(number(k) * number(root), number(depth), error * number(root))
        }),
{
    lemma_few_numbers();
    let h = number(depth);
    let t = number(root);
    lemma_ratio_size(h, t, d, bound, reach);
    let k = g(Op::Div(depth, root));
    assert(rounded(k, h / t, reach, error));
    lemma_order(single(ZERO), k);
    lemma_near_quotient(number(k), h, t, error);
}

proof fn lemma_near_quotient(k: real, h: real, t: real, error: real)
    requires
        t > 0real,
        close(k, h / t, error),
    ensures
        close(k * t, h, error * t),
{
    lemma_divides(h, t);
    let q = h / t;
    lemma_product(k - q, t, error, t);
    assert((k - q) * t == k * t - q * t) by (nonlinear_arith);
}

/// One coordinate of the push of a sphere whose centre lies outside.
proof fn lemma_pushed_axis(
    g: Arith,
    reach: real,
    error: real,
    bound: real,
    a: Single,
    k: Single,
    exact: real,
    d: real,
    root: real,
    radius: real,
    depth: real,
)
    requires
        rounds(g, reach, error),
        error <= 1real && bound >= 1real,
        0real < d && d <= 4real * bound,
        d / 2real <= root && root <= 2real * d,
        close(root * d, d * d, 40real * (bound * error)),
        100real * (bound * error) <= d * d,
        100real * error <= d,
        size(exact) <= d,
        finite(a) && close(number(a), exact, error),
        0real <= radius && radius <= bound,
        close(depth, radius - root, error),
        0real <= depth && depth <= radius,
        finite(k) && 0real <= number(k),
        close(number(k) * root, depth, error * root),
        reach >= 40real * (bound * bound),
    ensures
        ({
            let by = g(Op::Mul(a, k));
            &&& finite(by)
            &&& number(a) >= 0real ==> number(by) >= 0real
            &&& number(a) <= 0real ==> number(by) <= 0real
            &&& size(((exact + number(by)) * d - radius * exact) * d) <= 500real * (bound * (bound * (
            bound * error)))
        }),
{
    lemma_push_size(number(a), number(k), exact, d, root, depth, bound, error);
    lemma_grows(1real, bound, bound);
    lemma_scaled(g, reach, error, a, k);
    lemma_axis_push(
        exact,
        number(a),
        d,
        root,
        radius,
        depth,
        number(k),
        number(g(Op::Mul(a, k))),
        bound,
        error,
    );
}

/// A push along one axis is not much longer than the push.
proof fn lemma_push_size(
    a: real,
    k: real,
    exact: real,
    d: real,
    root: real,
    depth: real,
    bound: real,
    error: real,
)
    requires
        0real <= error && error <= 1real && bound >= 1real,
        0real < d && d <= 4real * bound,
        d / 2real <= root && root <= 2real * d,
        100real * error <= d,
        size(exact) <= d,
        close(a, exact, error),
        0real <= depth && depth <= bound,
        0real <= k,
        close(k * root, depth, error * root),
    ensures
        size(a * k) <= 36real * bound,
{
    lemma_size_product(a, k);
    lemma_grows(size(a), 4real * root, k);
    assert(4real * root * k == 4real * (k * root)) by (nonlinear_arith);
    lemma_grows(error, 1real, root);
    assert(size(a) <= 2real * d);
    assert(k * root <= depth + root);
    assert(root <= 8real * bound);
}

/// A sphere whose centre lies outside of a voxel that reaches into it is pushed
/// clear of it: once moved by the push, its centre is no closer to the nearest
/// point of the voxel than its radius, up to rounding, and along each axis it is
/// moved away from that point. `distance` is the distance at first.
pub proof fn law_pushed_sphere_is_clear(
    g: Arith,
    reach: real,
    error: real,
    bound: real,
    sphere: Vec3,
    radius: Single,
    low: Vec3,
    high: Vec3,
    distance: real,
)
    requires
        manageable(g, reach, error, bound, sphere, radius, low, high),
        distance > 0real,
        distance * distance == gap_squared(
            number(sphere.x),
            number(sphere.y),
            number(sphere.z),
            low,
            high,
        ),
        // Far enough outside for what is rounded.
        100real * (bound * error) <= distance * distance,
        100real * error <= distance,
        reach * distance >= 8real * bound,
        2real * number(single(INSIDE_EPSILON)) < distance * distance,
    ensures
        square(number(radius)) > distance * distance + 21real * (bound * error) ==> sphere_push(
            g,
            sphere,
            radius,
            low,
            high,
        ) is Some,
        square(number(radius)) < distance * distance - 21real * (bound * error) ==> sphere_push(
            g,
            sphere,
            radius,
            low,
            high,
        ) is None,
        sphere_push(g, sphere, radius, low, high) matches Some(push) ==> {
            let x = number(sphere.x) + number(push.by.x);
            let y = number(sphere.y) + number(push.by.y);
            let z = number(sphere.z) + number(push.by.z);
            let slack = 3000real * (bound * (bound * (bound * (bound * error))));
            &&& vec_finite(push.by) && finite(push.depth)
            &&& gap_squared(x, y, z, low, high) * (distance * distance) >= square(number(radius)) * (
            distance * distance) - slack
            &&& close(
                number(push.depth) * distance,
                (number(radius) - distance) * distance,
                50real * (bound * error),
            )
        },
{
    let away = lemma_away_of(g, reach, error, bound, sphere, radius, low, high);
    let squared = vec_dot(g, away, away);
    lemma_order(single(INSIDE_EPSILON), squared);
    lemma_radius(g, reach, error, bound, radius, squared);
    if !g(Op::Mul(radius, radius)).at_most(squared) {
        let d = distance;
        let root = g(Op::Sqrt(squared));
        let depth = g(Op::Sub(radius, root));
        let k = g(Op::Div(depth, root));
        lemma_distance(d, bound);
        lemma_depth(g, reach, error, bound, squared, radius);
        lemma_root(number(squared), number(root), d, bound, error);
        lemma_ratio(g, reach, error, bound, depth, root, d);
        let x = offset(number(sphere.x), number(low.x), number(high.x));
        let y = offset(number(sphere.y), number(low.y), number(high.y));
        let z = offset(number(sphere.z), number(low.z), number(high.z));
        lemma_part_size(x, y, z, d);
        lemma_part_size(y, z, x, d);
        lemma_part_size(z, x, y, d);
        let t = number(root);
        let r = number(radius);
        let h = number(depth);
        lemma_pushed_axis(g, reach, error, bound, away.x, k, x, d, t, r, h);
        lemma_pushed_axis(g, reach, error, bound, away.y, k, y, d, t, r, h);
        lemma_pushed_axis(g, reach, error, bound, away.z, k, z, d, t, r, h);
        let bx = number(g(Op::Mul(away.x, k)));
        let by = number(g(Op::Mul(away.y, k)));
        let bz = number(g(Op::Mul(away.z, k)));
        lemma_same_nearest(number(sphere.x), number(low.x), number(high.x), bx);
        lemma_same_nearest(number(sphere.y), number(low.y), number(high.y), by);
        lemma_same_nearest(number(sphere.z), number(low.z), number(high.z), bz);
        lemma_whole(x, y, z, x + bx, y + by, z + bz, d, r, bound, error);
        lemma_depth_close(h, r, t, d, bound, error);
        let push = sphere_push(g, sphere, radius, low, high)->0;
        assert(push.by == (Vec3 {
            x: g(Op::Mul(away.x, k)),
            y: g(Op::Mul(away.y, k)),
            z: g(Op::Mul(away.z, k)),
        }));
        assert(push.depth == depth);
    }
}

/// How the square of the radius compares.
proof fn lemma_radius(
    g: Arith,
    reach: real,
    error: real,
    bound: real,
    radius: Single,
    squared: Single,
)
    requires
        rounds(g, reach, error),
        bound >= 1real && reach >= 40real * (bound * bound),
        finite(radius) && 0real <= number(radius) && number(radius) <= bound,
        finite(squared),
    ensures
        g(Op::Mul(radius, radius)).at_most(squared) ==> square(number(radius)) <= number(squared)
            + bound * error,
        !g(Op::Mul(radius, radius)).at_most(squared) ==> number(squared) <= square(number(radius)),
{
    lemma_below_reach(number(radius), bound, reach);
    lemma_grows(1real, bound, error);
    let rr = g(Op::Mul(radius, radius));
    assert(rounded(rr, number(radius) * number(radius), reach, error));
    lemma_order(rr, squared);
}

proof fn lemma_distance(d: real, bound: real)
    requires
        bound >= 1real,
        d > 0real,
        d * d <= 12real * (bound * bound),
    ensures
        d <= 4real * bound,
{
    assert(4real * bound * (4real * bound) == 16real * (bound * bound)) by (nonlinear_arith);
    lemma_not_negative(bound);
    lemma_square_order(d, 4real * bound);
}

proof fn lemma_depth_close(h: real, r: real, t: real, d: real, bound: real, error: real)
    requires
        0real < d && d <= 4real * bound,
        0real <= error,
        close(h, r - t, error),
        close(t * d, d * d, 40real * (bound * error)),
    ensures
        close(h * d, (r - d) * d, 50real * (bound * error)),
{
    let m = h - (r - t);
    lemma_product(m, d, error, 4real * bound);
    assert(error * (4real * bound) == 4real * (bound * error)) by (nonlinear_arith);
    assert(h * d == m * d + r * d - t * d) by (nonlinear_arith)
        requires
            m == h - (r - t),
    ;
    assert((r - d) * d == r * d - d * d) by (nonlinear_arith);
    assert(bound * error >= 0real) by (nonlinear_arith)
        requires
            bound >= 0real,
            error >= 0real,
    ;
}

proof fn lemma_whole(
    x: real,
    y: real,
    z: real,
    vx: real,
    vy: real,
    vz: real,
    d: real,
    radius: real,
    bound: real,
    error: real,
)
    requires
        0real < d,
        0real <= radius && radius <= bound,
        0real <= error,
        size(x) <= d && size(y) <= d && size(z) <= d,
        square(x) + square(y) + square(z) == d * d,
        size((vx * d - radius * x) * d) <= 500real * (bound * (bound * (bound * error))),
        size((vy * d - radius * y) * d) <= 500real * (bound * (bound * (bound * error))),
        size((vz * d - radius * z) * d) <= 500real * (bound * (bound * (bound * error))),
    ensures
        (square(vx) + square(vy) + square(vz)) * (d * d) >= square(radius) * (d * d) - 3000real * (bound
            * (bound * (bound * (bound * error)))),
{
    let unit = bound * (bound * (bound * error));
    let off = 500real * unit;
    lemma_grows(0real, bound, error);
    lemma_grows(0real, bound * error, bound);
    lemma_grows(0real, bound * (bound * error), bound);
    assert(0real * error == 0real && 0real * bound == 0real && bound * 0real == 0real);
    lemma_part(x, vx, d, radius, off);
    lemma_part(y, vy, d, radius, off);
    lemma_part(z, vz, d, radius, off);
    lemma_grows(radius, bound, off);
    assert(bound * off == 500real * (bound * unit)) by (nonlinear_arith)
        requires
            off == 500real * unit,
    ;
    lemma_sums(square(vx), square(vy), square(vz), d * d);
    lemma_sums(square(x), square(y), square(z), square(radius));
    assert(square(radius) * (d * d) == (square(x) + square(y) + square(z)) * square(radius))
        by (nonlinear_arith)
        requires
            square(x) + square(y) + square(z) == d * d,
    ;
    lemma_swaps(square(radius), square(x));
    lemma_swaps(square(radius), square(y));
    lemma_swaps(square(radius), square(z));
}

proof fn lemma_swaps(a: real, b: real)
    ensures
        a * b == b * a,
{
    assert(a * b == b * a) by (nonlinear_arith);
}

proof fn lemma_sums(a: real, b: real, c: real, k: real)
    ensures
        (a + b + c) * k == a * k + b * k + c * k,
{
    assert((a + b + c) * k == a * k + b * k + c * k) by (nonlinear_arith);
}

/// A move through one end of an interval to `radius` beyond it.
pub open spec fn through(at: real, low: real, high: real, by: real, radius: real, slack: real) -> bool {
    close(at + by, low - radius, slack) || close(at + by, high + radius, slack)
}

/// A move that is no longer than that through either end of an interval to `radius`
/// beyond it.
pub open spec fn no_longer(at: real, low: real, high: real, way: real, radius: real, slack: real) -> bool {
    way <= at - low + radius + slack && way <= high - at + radius + slack
}

proof fn lemma_escape(
    g: Arith,
    reach: real,
    error: real,
    bound: real,
    at: Single,
    low: Single,
    high: Single,
    radius: Single,
)
    requires
        rounds(g, reach, error),
        error <= 1real && bound >= 1real && reach >= 8real * bound,
        finite(at) && finite(low) && finite(high) && finite(radius),
        size(number(at)) <= bound && size(number(low)) <= bound && size(number(high)) <= bound,
        0real <= number(radius) && number(radius) <= bound,
        number(low) <= number(at) && number(at) <= number(high),
    ensures
        ({
            let by = escape(g, at, low, high, radius);
            &&& finite(by)
            &&& through(
                number(at),
                number(low),
                number(high),
                number(by),
                number(radius),
                2real * error,
            )
            &&& no_longer(
                number(at),
                number(low),
                number(high),
                size(number(by)),
                number(radius),
                4real * error,
            )
        }),
{
    lemma_few_numbers();
    let zero = single(ZERO);
    let down = g(Op::Sub(at, low));
    let up = g(Op::Sub(high, at));
    assert(rounded(down, number(at) - number(low), reach, error));
    assert(rounded(up, number(high) - number(at), reach, error));
    lemma_order(zero, down);
    lemma_order(zero, up);
    lemma_order(down, up);
    let a = g(Op::Add(down, radius));
    let b = g(Op::Add(up, radius));
    assert(rounded(a, number(down) + number(radius), reach, error));
    assert(rounded(b, number(up) + number(radius), reach, error));
    lemma_order(zero, a);
    lemma_order(zero, b);
    lemma_signs(a);
}

/// A sphere whose centre lies inside of a voxel is pushed out along one axis,
/// through the nearest of the six faces, until its centre lies its radius beyond
/// that face, up to rounding.
pub proof fn law_sphere_inside_leaves_through_nearest_face(
    g: Arith,
    reach: real,
    error: real,
    bound: real,
    sphere: Vec3,
    radius: Single,
    low: Vec3,
    high: Vec3,
)
    requires
        manageable(g, reach, error, bound, sphere, radius, low, high),
        number(low.x) <= number(sphere.x) && number(sphere.x) <= number(high.x),
        number(low.y) <= number(sphere.y) && number(sphere.y) <= number(high.y),
        number(low.z) <= number(sphere.z) && number(sphere.z) <= number(high.z),
    ensures
        square(number(radius)) > bound * error ==> sphere_push(
            g,
            sphere,
            radius,
            low,
            high,
        ) is Some,
        sphere_push(g, sphere, radius, low, high) matches Some(push) ==> {
            let x = number(push.by.x);
            let y = number(push.by.y);
            let z = number(push.by.z);
            let r = number(radius);
            let way = size(x) + size(y) + size(z);
            &&& {
                ||| y == 0real && z == 0real && through(
                    number(sphere.x),
                    number(low.x),
                    number(high.x),
                    x,
                    r,
                    2real * error,
                )
                ||| x == 0real && z == 0real && through(
                    number(sphere.y),
                    number(low.y),
                    number(high.y),
                    y,
                    r,
                    2real * error,
                )
                ||| x == 0real && y == 0real && through(
                    number(sphere.z),
                    number(low.z),
                    number(high.z),
                    z,
                    r,
                    2real * error,
                )
            }
            &&& no_longer(
                number(sphere.x),
                number(low.x),
                number(high.x),
                way,
                r,
                4real * error,
            )
            &&& no_longer(
                number(sphere.y),
                number(low.y),
                number(high.y),
                way,
                r,
                4real * error,
            )
            &&& no_longer(
                number(sphere.z),
                number(low.z),
                number(high.z),
                way,
                r,
                4real * error,
            )
            &&& number(push.depth) == way
        },
{
    lemma_few_numbers();
    lemma_grows(1real, bound, bound);
    let away = lemma_away_of(g, reach, error, bound, sphere, radius, low, high);
    let squared = vec_dot(g, away, away);
    lemma_inside(number(sphere.x), number(low.x), number(high.x));
    lemma_inside(number(sphere.y), number(low.y), number(high.y));
    lemma_inside(number(sphere.z), number(low.z), number(high.z));
    lemma_no_way(g, reach, error, away);
    lemma_order(single(INSIDE_EPSILON), squared);
    lemma_order(single(ZERO), single(INSIDE_EPSILON));
    lemma_radius(g, reach, error, bound, radius, squared);
    lemma_escape(g, reach, error, bound, sphere.x, low.x, high.x, radius);
    lemma_escape(g, reach, error, bound, sphere.y, low.y, high.y, radius);
    lemma_escape(g, reach, error, bound, sphere.z, low.z, high.z, radius);
    lemma_shortest(
        Vec3 {
            x: escape(g, sphere.x, low.x, high.x, radius),
            y: escape(g, sphere.y, low.y, high.y, radius),
            z: escape(g, sphere.z, low.z, high.z, radius),
        },
    );
}

/// A way of no length has no length squared, however the arithmetic rounds.
proof fn lemma_no_way(g: Arith, reach: real, error: real, a: Vec3)
    requires
        rounds(g, reach, error),
        vec_finite(a),
        number(a.x) == 0real && number(a.y) == 0real && number(a.z) == 0real,
    ensures
        finite(vec_dot(g, a, a)),
        number(vec_dot(g, a, a)) == 0real,
{
    lemma_few_numbers();
    assert(0real * 0real == 0real);
    let xx = g(Op::Mul(a.x, a.x));
    let yy = g(Op::Mul(a.y, a.y));
    let zz = g(Op::Mul(a.z, a.z));
    lemma_nothing(xx, reach, error);
    lemma_nothing(yy, reach, error);
    lemma_nothing(zz, reach, error);
    let xy = g(Op::Add(xx, yy));
    assert(rounded(xy, number(xx) + number(yy), reach, error));
    lemma_nothing(xy, reach, error);
    let all = g(Op::Add(xy, zz));
    assert(rounded(all, number(xy) + number(zz), reach, error));
    lemma_nothing(all, reach, error);
}

proof fn lemma_nothing(r: Single, reach: real, error: real)
    requires
        reach >= 1real,
        rounded(r, 0real, reach, error),
    ensures
        finite(r),
        number(r) == 0real,
{
    lemma_few_numbers();
    assert(number(single(ZERO)) == 0real);
    lemma_order(single(ZERO), r);
    lemma_order(r, single(ZERO));
}

proof fn lemma_inside(at: real, low: real, high: real)
    requires
        low <= at && at <= high,
    ensures
        offset(at, low, high) == 0real,
        square(offset(at, low, high)) == 0real,
{
    reveal(offset);
    assert(0real * 0real == 0real);
}

proof fn lemma_shortest(e: Vec3)
    requires
        vec_finite(e),
    ensures
        ({
            let push = shortest(e);
            let way = number(push.depth);
            &&& way == size(number(push.by.x)) + size(number(push.by.y)) + size(number(push.by.z))
            &&& way <= size(number(e.x)) && way <= size(number(e.y)) && way <= size(number(e.z))
            &&& {
                ||| push.by.x == e.x && number(push.by.y) == 0real && number(push.by.z) == 0real
                ||| push.by.y == e.y && number(push.by.x) == 0real && number(push.by.z) == 0real
                ||| push.by.z == e.z && number(push.by.x) == 0real && number(push.by.y) == 0real
            }
        }),
{
    lemma_few_numbers();
    lemma_signs(e.x);
    lemma_signs(e.y);
    lemma_signs(e.z);
    lemma_order(e.x.without_sign(), e.y.without_sign());
    lemma_order(e.x.without_sign(), e.z.without_sign());
    lemma_order(e.y.without_sign(), e.z.without_sign());
}

} // verus!
