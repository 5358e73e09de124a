//! What the movements of characters come to, in numbers.

use crate::arith::{vec_dot, vec_length, Arith, Op, Vec3, ONE, ZERO};
use crate::character::stride::{faces, finds_angles, is_length, lemma_faces, lemma_half_turn};
use crate::npc::brain::STILL_EPSILON;
use crate::npc::tick::{
    apart, in_reach, push_on, pushed, separated, strength_at, with_push, NpcRuntime,
    HALF_TURN, SEPARATION_RADIUS, SEPARATION_STRENGTH, WALK_SPEED,
};
use crate::rounding::{
    close, finite, lemma_few_numbers, lemma_fraction, lemma_order, lemma_product, number, rounded,
    rounds, size, square, vec_finite,
};
use crate::single::{single, Single};
use vstd::arithmetic::power2::{lemma2_to64, lemma2_to64_rest};
use vstd::prelude::*;

verus! {

/// The places are numbers no larger than `bound`, and the arithmetic reaches well
/// beyond them.
pub open spec fn moderate(g: Arith, reach: real, error: real, bound: real, v: Vec3) -> bool {
    &&& rounds(g, reach, error)
    &&& error <= 1real
    &&& bound >= 1real
    &&& reach >= 10000real * bound * bound
    &&& vec_finite(v)
    &&& size(number(v.x)) <= bound
    &&& size(number(v.y)) <= bound
    &&& size(number(v.z)) <= bound
}

/// What a character at `there` adds to the push on one at `here`.
spec fn added(g: Arith, here: Vec3, there: Vec3) -> Vec3 {
    let flat = apart(g, here, there);
    let distance = vec_length(g, flat);
    let strength = strength_at(g, distance);
    Vec3 {
        x: g(Op::Mul(g(Op::Div(flat.x, distance)), strength)),
        y: g(Op::Mul(g(Op::Div(flat.y, distance)), strength)),
        z: g(Op::Mul(g(Op::Div(flat.z, distance)), strength)),
    }
}

/// The numbers of a few constants.
proof fn lemma_constants()
    ensures
        finite(single(SEPARATION_RADIUS)),
        number(single(SEPARATION_RADIUS)) == 5real / 2real,
        finite(single(SEPARATION_STRENGTH)),
        number(single(SEPARATION_STRENGTH)) == 3real / 2real,
        finite(single(STILL_EPSILON)),
        1real / 16384real < number(single(STILL_EPSILON)),
        finite(single(0x3c00_0000)),
        number(single(0x3c00_0000)) == 1real / 128real,
        finite(single(0x40c8_0000)),
        number(single(0x40c8_0000)) == 25real / 4real,
{
    lemma2_to64();
    lemma2_to64_rest();
    lemma_fraction(single(SEPARATION_RADIUS), 128, 0xa0_0000, 0x40_0000, 5real / 2real);
    lemma_fraction(single(SEPARATION_STRENGTH), 127, 0xc0_0000, 0x80_0000, 3real / 2real);
    lemma_fraction(single(0x3c00_0000), 120, 0x80_0000, 0x4000_0000, 1real / 128real);
    lemma_fraction(single(0x40c8_0000), 129, 0xc8_0000, 0x20_0000, 25real / 4real);
    lemma_fraction(single(0x3880_0000), 113, 0x80_0000, 0x20_0000_0000, 1real / 16384real);
    lemma_order(single(0x3880_0000), single(STILL_EPSILON));
}

/// A product or quotient of numbers is as large as its factors allow.
proof fn lemma_sizes(a: real, b: real, m: real, n: real)
    requires
        size(a) <= m,
        size(b) <= n,
    ensures
        size(a * b) <= m * n,
        a >= 0real && b >= 0real ==> a * b >= 0real,
        a <= 0real && b >= 0real ==> a * b <= 0real,
        a * a >= 0real,
{
    assert(size(a * b) <= m * n) by (nonlinear_arith)
        requires
            -m <= a,
            a <= m,
            -n <= b,
            b <= n,
    ;
    assert(a >= 0real && b >= 0real ==> a * b >= 0real) by (nonlinear_arith);
    assert(a <= 0real && b >= 0real ==> a * b <= 0real) by (nonlinear_arith);
    assert(a * a >= 0real) by (nonlinear_arith);
}

proof fn lemma_quotient(a: real, b: real, m: real, n: real)
    requires
        size(a) <= m,
        n > 0real,
        b >= 1real / n,
    ensures
        size(a / b) <= m * n,
        a >= 0real ==> a / b >= 0real,
        a <= 0real ==> a / b <= 0real,
{
    assert(1real / n > 0real) by (nonlinear_arith)
        requires
            n > 0real,
    ;
    let q = a / b;
    assert(q * b == a) by (nonlinear_arith)
        requires
            b > 0real,
            q == a / b,
    ;
    assert(b * n >= 1real) by (nonlinear_arith)
        requires
            b >= 1real / n,
            n > 0real,
    ;
    assert(a >= 0real ==> q >= 0real) by (nonlinear_arith)
        requires
            q * b == a,
            b > 0real,
    ;
    assert(a <= 0real ==> q <= 0real) by (nonlinear_arith)
        requires
            q * b == a,
            b > 0real,
    ;
    assert(q <= m * n && -q <= m * n) by (nonlinear_arith)
        requires
            q * b == a,
            b > 0real,
            b * n >= 1real,
            -m <= a,
            a <= m,
            n > 0real,
    ;
}

/// What one character adds to the push on another points from it to the other.
proof fn lemma_added(g: Arith, reach: real, error: real, bound: real, here: Vec3, there: Vec3)
    requires
        moderate(g, reach, error, bound, here),
        moderate(g, reach, error, bound, there),
        in_reach(g, here, there),
    ensures
        ({
            let a = added(g, here, there);
            &&& finite(a.x) && finite(a.z)
            &&& size(number(a.x)) <= 4000real * bound
            &&& size(number(a.z)) <= 4000real * bound
            &&& number(here.x) >= number(there.x) ==> number(a.x) >= 0real
            &&& number(here.x) <= number(there.x) ==> number(a.x) <= 0real
            &&& number(here.z) >= number(there.z) ==> number(a.z) >= 0real
            &&& number(here.z) <= number(there.z) ==> number(a.z) <= 0real
        }),
{
    lemma_constants();
    lemma_few_numbers();
    let zero = single(ZERO);
    let one = single(ONE);
    let radius = single(SEPARATION_RADIUS);
    let flat = apart(g, here, there);
    assert(bound * bound >= bound) by (nonlinear_arith)
        requires
            bound >= 1real,
    ;
    let b2 = bound * bound;
    assert(reach >= 10000real * b2) by (nonlinear_arith)
        requires
            reach >= 10000real * bound * bound,
            b2 == bound * bound,
    ;
    // The way between them.
    assert(rounded(flat.x, number(here.x) - number(there.x), reach, error));
    assert(rounded(flat.z, number(here.z) - number(there.z), reach, error));
    assert(size(number(flat.x)) <= 3real * bound && size(number(flat.z)) <= 3real * bound);
    lemma_order(zero, flat.x);
    lemma_order(flat.x, zero);
    lemma_order(zero, flat.z);
    lemma_order(flat.z, zero);
    assert(number(here.x) >= number(there.x) ==> number(flat.x) >= 0real);
    assert(number(here.x) <= number(there.x) ==> number(flat.x) <= 0real);
    assert(number(here.z) >= number(there.z) ==> number(flat.z) >= 0real);
    assert(number(here.z) <= number(there.z) ==> number(flat.z) <= 0real);
    // How long it is.
    let xx = g(Op::Mul(flat.x, flat.x));
    let yy = g(Op::Mul(flat.y, flat.y));
    let zz = g(Op::Mul(flat.z, flat.z));
    let xy = g(Op::Add(xx, yy));
    let squared = vec_dot(g, flat, flat);
    lemma_sizes(number(flat.x), number(flat.x), 3real * bound, 3real * bound);
    lemma_sizes(number(flat.z), number(flat.z), 3real * bound, 3real * bound);
    assert((3real * bound) * (3real * bound) == 9real * b2) by (nonlinear_arith)
        requires
            b2 == bound * bound,
    ;
    assert(number(flat.y) * number(flat.y) == 0real);
    assert(rounded(xx, number(flat.x) * number(flat.x), reach, error));
    assert(rounded(yy, number(flat.y) * number(flat.y), reach, error));
    assert(rounded(zz, number(flat.z) * number(flat.z), reach, error));
    assert(rounded(xy, number(xx) + number(yy), reach, error));
    assert(rounded(squared, number(xy) + number(zz), reach, error));
    assert(finite(squared));
    let most = g(Op::Mul(radius, radius));
    assert((5real / 2real) * (5real / 2real) == 25real / 4real);
    assert(rounded(most, number(radius) * number(radius), reach, error));
    lemma_order(most, single(0x40c8_0000));
    lemma_order(squared, most);
    lemma_order(single(STILL_EPSILON), squared);
    assert(number(squared) < 25real / 4real);
    let distance = vec_length(g, flat);
    assert(square(reach) >= 25real / 4real) by (nonlinear_arith)
        requires
            reach >= 10000real,
            square(reach) == reach * reach,
    ;
    assert(square(number(radius)) == 25real / 4real);
    assert(square(number(single(0x3c00_0000))) == 1real / 16384real);
    assert(finite(distance));
    lemma_order(distance, radius);
    lemma_order(single(0x3c00_0000), distance);
    assert(1real / 128real <= number(distance) && number(distance) <= 5real / 2real);
    // How strong the push is.
    let ratio = g(Op::Div(distance, radius));
    let d = number(distance);
    let exact = d / number(radius);
    assert(0real <= exact && exact <= 1real) by (nonlinear_arith)
        requires
            0real <= d,
            d <= 5real / 2real,
            number(radius) == 5real / 2real,
            exact == d / number(radius),
    ;
    assert(rounded(ratio, exact, reach, error));
    lemma_order(ratio, one);
    let closeness = g(Op::Sub(one, ratio));
    assert(rounded(closeness, number(one) - number(ratio), reach, error));
    lemma_order(zero, closeness);
    let strength = strength_at(g, distance);
    assert(size(number(closeness)) <= 4real);
    lemma_sizes(number(closeness), 3real / 2real, 4real, 3real / 2real);
    assert(rounded(
        strength,
        number(closeness) * number(single(SEPARATION_STRENGTH)),
        reach,
        error,
    ));
    lemma_order(zero, strength);
    assert(0real <= number(strength) && number(strength) <= 7real);
    // Where it points.
    let a = added(g, here, there);
    let ux = g(Op::Div(flat.x, distance));
    let uz = g(Op::Div(flat.z, distance));
    lemma_quotient(number(flat.x), d, 3real * bound, 128real);
    lemma_quotient(number(flat.z), d, 3real * bound, 128real);
    assert(rounded(ux, number(flat.x) / d, reach, error));
    assert(rounded(uz, number(flat.z) / d, reach, error));
    lemma_order(zero, ux);
    lemma_order(ux, zero);
    lemma_order(zero, uz);
    lemma_order(uz, zero);
    assert(size(number(ux)) <= 385real * bound && size(number(uz)) <= 385real * bound);
    lemma_sizes(number(ux), number(strength), 385real * bound, 7real);
    lemma_sizes(number(uz), number(strength), 385real * bound, 7real);
    assert(rounded(a.x, number(ux) * number(strength), reach, error));
    assert(rounded(a.z, number(uz) * number(strength), reach, error));
    lemma_order(zero, a.x);
    lemma_order(a.x, zero);
    lemma_order(zero, a.z);
    lemma_order(a.z, zero);
}

/// A push by another character points from it to the one that is pushed, along
/// both axes of the plane: it never takes away from a push in that direction.
pub proof fn law_push_points_away(
    g: Arith,
    reach: real,
    error: real,
    bound: real,
    push: Vec3,
    here: Vec3,
    there: Vec3,
)
    requires
        moderate(g, reach, error, bound, here),
        moderate(g, reach, error, bound, there),
        vec_finite(push),
    ensures
        ({
            let after = with_push(g, push, here, there);
            &&& number(here.x) >= number(there.x) ==> push.x.at_most(after.x)
            &&& number(here.x) <= number(there.x) ==> after.x.at_most(push.x)
            &&& number(here.z) >= number(there.z) ==> push.z.at_most(after.z)
            &&& number(here.z) <= number(there.z) ==> after.z.at_most(push.z)
        }),
{
    lemma_order(push.x, push.x);
    lemma_order(push.z, push.z);
    if in_reach(g, here, there) {
        lemma_added(g, reach, error, bound, here, there);
        let a = added(g, here, there);
        let after = with_push(g, push, here, there);
        assert(rounded(after.x, number(push.x) + number(a.x), reach, error));
        assert(rounded(after.z, number(push.z) + number(a.z), reach, error));
    }
}

/// A coordinate has grown, or is held at the upper end of the spawn box.
pub open spec fn no_less(after: Single, before: Single, most: Single) -> bool {
    before.at_most(after) || after == most
}

/// A coordinate has shrunk, or is held at the lower end of the spawn box.
pub open spec fn no_more(after: Single, before: Single, least: Single) -> bool {
    after.at_most(before) || after == least
}

/// One coordinate after a push for a time goes the way of the push.
proof fn lemma_moved(g: Arith, reach: real, error: real, bound: real, at: Single, push: Single, dt: Single)
    requires
        rounds(g, reach, error),
        error <= 1real,
        bound >= 1real,
        reach >= 10000real * bound,
        finite(at),
        finite(push),
        size(number(push)) <= 5000real * bound,
        finite(dt),
        0real <= number(dt) && number(dt) <= 1real,
    ensures
        ({
            let next = g(Op::Add(at, g(Op::Mul(push, dt))));
            &&& number(push) >= 0real ==> at.at_most(next)
            &&& number(push) <= 0real ==> next.at_most(at)
        }),
{
    lemma_few_numbers();
    let zero = single(ZERO);
    let way = g(Op::Mul(push, dt));
    lemma_sizes(number(push), number(dt), 5000real * bound, 1real);
    assert(rounded(way, number(push) * number(dt), reach, error));
    lemma_order(zero, way);
    lemma_order(way, zero);
    lemma_order(at, at);
    let next = g(Op::Add(at, way));
    assert(rounded(next, number(at) + number(way), reach, error));
}

/// The push on one of two characters.
proof fn lemma_pair_push(
    g: Arith,
    reach: real,
    error: real,
    bound: real,
    all: Seq<NpcRuntime>,
    i: int,
)
    requires
        all.len() == 2,
        i == 0 || i == 1,
        moderate(g, reach, error, bound, all[0].pos),
        moderate(g, reach, error, bound, all[1].pos),
    ensures
        ({
            let here = all[i].pos;
            let there = all[1 - i].pos;
            let push = push_on(g, all, i, 2);
            &&& finite(push.x) && finite(push.z)
            &&& size(number(push.x)) <= 5000real * bound
            &&& size(number(push.z)) <= 5000real * bound
            &&& number(here.x) >= number(there.x) ==> number(push.x) >= 0real
            &&& number(here.x) <= number(there.x) ==> number(push.x) <= 0real
            &&& number(here.z) >= number(there.z) ==> number(push.z) >= 0real
            &&& number(here.z) <= number(there.z) ==> number(push.z) <= 0real
        }),
{
    lemma_few_numbers();
    let here = all[i].pos;
    let there = all[1 - i].pos;
    let zero = single(ZERO);
    let origin = Vec3 { x: zero, y: zero, z: zero };
    reveal_with_fuel(push_on, 3);
    let push = push_on(g, all, i, 2);
    assert(push == with_push(g, origin, here, there));
    if in_reach(g, here, there) {
        lemma_added(g, reach, error, bound, here, there);
        let a = added(g, here, there);
        let b2 = bound * bound;
        assert(reach >= 10000real * b2 && b2 >= bound) by (nonlinear_arith)
            requires
                reach >= 10000real * bound * bound,
                b2 == bound * bound,
                bound >= 1real,
        ;
        assert(rounded(push.x, number(zero) + number(a.x), reach, error));
        assert(rounded(push.z, number(zero) + number(a.z), reach, error));
        lemma_order(zero, push.x);
        lemma_order(push.x, zero);
        lemma_order(zero, push.z);
        lemma_order(push.z, zero);
    }
}

proof fn lemma_pair(
    g: Arith,
    reach: real,
    error: real,
    bound: real,
    all: Seq<NpcRuntime>,
    i: int,
    dt: Single,
)
    requires
        all.len() == 2,
        i == 0 || i == 1,
        moderate(g, reach, error, bound, all[0].pos),
        moderate(g, reach, error, bound, all[1].pos),
        finite(dt),
        0real <= number(dt) && number(dt) <= 1real,
    ensures
        ({
            let here = all[i].pos;
            let there = all[1 - i].pos;
            separated(g, all, i, dt) matches Some(next) ==> {
                &&& number(here.x) >= number(there.x) ==> no_less(
                    next.pos.x,
                    here.x,
                    all[i].spawn_max.x,
                )
                &&& number(here.x) <= number(there.x) ==> no_more(
                    next.pos.x,
                    here.x,
                    all[i].spawn_min.x,
                )
                &&& number(here.z) >= number(there.z) ==> no_less(
                    next.pos.z,
                    here.z,
                    all[i].spawn_max.z,
                )
                &&& number(here.z) <= number(there.z) ==> no_more(
                    next.pos.z,
                    here.z,
                    all[i].spawn_min.z,
                )
            }
        }),
{
    let here = all[i].pos;
    let push = push_on(g, all, i, 2);
    lemma_order(here.x, here.x);
    lemma_order(here.z, here.z);
    lemma_pair_push(g, reach, error, bound, all, i);
    let b2 = bound * bound;
    assert(reach >= 10000real * b2 && b2 >= bound) by (nonlinear_arith)
        requires
            reach >= 10000real * bound * bound,
            b2 == bound * bound,
            bound >= 1real,
    ;
    lemma_moved(g, reach, error, bound, here.x, push.x, dt);
    lemma_moved(g, reach, error, bound, here.z, push.z, dt);
}

/// Two characters come no closer by pushing each other, along neither axis of the
/// plane: the one ahead does not fall back and the one behind does not catch up,
/// unless a spawn box holds them.
pub proof fn law_pushed_characters_come_no_closer(
    g: Arith,
    reach: real,
    error: real,
    bound: real,
    all: Seq<NpcRuntime>,
    dt: Single,
)
    requires
        all.len() == 2,
        moderate(g, reach, error, bound, all[0].pos),
        moderate(g, reach, error, bound, all[1].pos),
        finite(dt),
        0real <= number(dt) && number(dt) <= 1real,
    ensures
        match (separated(g, all, 0, dt), separated(g, all, 1, dt)) {
            (Some(one), Some(other)) => {
            let a = all[0];
            let b = all[1];
            &&& number(a.pos.x) >= number(b.pos.x) ==> no_less(
                one.pos.x,
                a.pos.x,
                a.spawn_max.x,
            ) && no_more(other.pos.x, b.pos.x, b.spawn_min.x)
            &&& number(a.pos.x) <= number(b.pos.x) ==> no_more(
                one.pos.x,
                a.pos.x,
                a.spawn_min.x,
            ) && no_less(other.pos.x, b.pos.x, b.spawn_max.x)
            &&& number(a.pos.z) >= number(b.pos.z) ==> no_less(
                one.pos.z,
                a.pos.z,
                a.spawn_max.z,
            ) && no_more(other.pos.z, b.pos.z, b.spawn_min.z)
            &&& number(a.pos.z) <= number(b.pos.z) ==> no_more(
                one.pos.z,
                a.pos.z,
                a.spawn_min.z,
            ) && no_less(other.pos.z, b.pos.z, b.spawn_max.z)
            },
            _ => true,
        },
{
    lemma_pair(g, reach, error, bound, all, 0, dt);
    lemma_pair(g, reach, error, bound, all, 1, dt);
}

/// One coordinate of a character that walks.
proof fn lemma_walked(
    g: Arith,
    reach: real,
    error: real,
    bound: real,
    at: Single,
    d: Single,
    speed: Single,
    dt: Single,
)
    requires
        rounds(g, reach, error),
        error <= 1real && bound >= 1real && reach >= 10real * bound,
        finite(at) && finite(d) && finite(speed) && finite(dt),
        size(number(at)) <= bound && size(number(d)) <= 2real,
        0real <= number(speed) && number(speed) <= 2real,
        0real <= number(dt) && number(dt) <= bound,
    ensures
        ({
            let end = g(Op::Add(at, g(Op::Mul(g(Op::Mul(d, speed)), dt))));
            &&& finite(end)
            &&& close(
                number(end),
                number(at) + number(d) * number(speed) * number(dt),
                (bound + 2real) * error,
            )
        }),
{
    let a = number(d);
    let v = number(speed);
    let t = number(dt);
    lemma_product(a, v, 2real, 2real);
    let fast = g(Op::Mul(d, speed));
    assert(rounded(fast, a * v, reach, error));
    let f = number(fast);
    lemma_product(f - a * v, t, error, bound);
    lemma_product(f, t, 5real, bound);
    assert((f - a * v) * t == f * t - a * v * t) by (nonlinear_arith);
    assert(error * bound == bound * error) by (nonlinear_arith);
    let way = g(Op::Mul(fast, dt));
    assert(rounded(way, f * t, reach, error));
    assert(rounded(g(Op::Add(at, way)), number(at) + number(way), reach, error));
    assert((bound + 2real) * error == bound * error + 2real * error) by (nonlinear_arith);
}

/// A character that walks moves along the direction of its step, at walking speed, 1.4
/// metres per second, along each axis, and faces along that direction, up to rounding.
pub proof fn law_walking_is_along_the_direction(
    npc: NpcRuntime,
    g: Arith,
    reach: real,
    error: real,
    bound: real,
    dt: Single,
    d: Vec3,
    length: real,
)
    requires
        rounds(g, reach, error),
        finds_angles(g, error),
        error <= 1real && bound >= 1real && reach >= 10real * bound && reach >= 1000real,
        npc.brain matches Some(brain) && brain.step.role is Walk && brain.step.direction == d,
        vec_finite(npc.pos) && vec_finite(d),
        size(number(npc.pos.x)) <= bound && size(number(npc.pos.y)) <= bound && size(
            number(npc.pos.z),
        ) <= bound,
        size(number(d.x)) <= 2real && size(number(d.y)) <= 2real && size(number(d.z)) <= 2real,
        finite(dt) && 0real <= number(dt) && number(dt) <= bound,
        is_length(length, number(d.x), number(d.z)),
    ensures
        ({
            let next = npc.walked(g, dt);
            let slack = (bound + 2real) * error;
            let t = number(dt);
            let v = number(single(WALK_SPEED));
            &&& close(v, 7real / 5real, 1real / 1000000real)
            &&& close(number(next.pos.x), number(npc.pos.x) + number(d.x) * v * t, slack)
            &&& close(number(next.pos.y), number(npc.pos.y) + number(d.y) * v * t, slack)
            &&& close(number(next.pos.z), number(npc.pos.z) + number(d.z) * v * t, slack)
            &&& faces(g, next.yaw_deg, number(d.x), number(d.z), length, error * length, error)
        }),
{
    lemma2_to64();
    let speed = single(WALK_SPEED);
    let half = single(HALF_TURN);
    lemma_fraction(speed, 127, 0xb3_3333, 0x80_0000, 11744051real / 8388608real);
    lemma_half_turn(half);
    lemma_walked(g, reach, error, bound, npc.pos.x, d.x, speed, dt);
    lemma_walked(g, reach, error, bound, npc.pos.y, d.y, speed, dt);
    lemma_walked(g, reach, error, bound, npc.pos.z, d.z, speed, dt);
    lemma_faces(g, reach, error, d.x, d.z, half, length);
}

} // verus!
