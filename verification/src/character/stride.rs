//! Where paths lead and which way one faces on them, in numbers.

use crate::arith::{vec_difference, vec_dot, Arith, Op, Vec3, ONE, ZERO};
use crate::character::path::{lerp, LinearPath, HALF_TURN, SAME_PLACE, TWO};
use crate::collision::contact::{lemma_squared, vec_within};
use crate::rounding::{
    close, finite, lemma_divides, lemma_few_numbers, lemma_fraction, lemma_grows, lemma_order,
    lemma_product, lemma_shrinks, lemma_signs, number, rounded, rounds, size, square, vec_finite,
};
use crate::single::{single, Single};
use vstd::arithmetic::power2::lemma2_to64;
use vstd::prelude::*;

verus! {

/// The number is the length of a way in the plane.
pub open spec fn is_length(length: real, x: real, z: real) -> bool {
    length >= 0real && length * length == x * x + z * z
}

/// The angle points along a way of the given length: its sine along X and its cosine
/// along Z.
pub open spec fn points(g: Arith, angle: Single, x: real, z: real, length: real, slack: real) -> bool {
    &&& close(number(g(Op::Sin(angle))) * length, x, slack)
    &&& close(number(g(Op::Cos(angle))) * length, z, slack)
}

/// The arithmetic finds the angle of a way, up to `error`, and angles in degrees stay
/// within a few hundred.
pub open spec fn finds_angles(g: Arith, error: real) -> bool {
    &&& forall|x: Single, z: Single, length: real|
        finite(x) && finite(z) && #[trigger] is_length(length, number(x), number(z)) ==> {
            let angle = #[trigger] g(Op::Atan2(x, z));
            &&& finite(angle) && size(number(angle)) <= 4real
            &&& points(g, angle, number(x), number(z), length, error * length)
        }
    &&& forall|angle: Single|
        finite(angle) && size(number(angle)) <= 4real ==> {
            let degrees = #[trigger] g(Op::Degrees(angle));
            finite(degrees) && size(number(degrees)) <= 240real
        }
}

/// The heading is half a turn, in degrees, from an angle that points along a way.
pub open spec fn faces(
    g: Arith,
    heading: Single,
    x: real,
    z: real,
    length: real,
    slack: real,
    error: real,
) -> bool {
    exists|angle: Single|
        finite(angle) && #[trigger] points(g, angle, x, z, length, slack) && finite(heading) && close(
            number(heading),
            number(g(Op::Degrees(angle))) + 180real,
            error,
        )
}

/// The heading that belongs to a way is half a turn from the angle along it.
pub proof fn lemma_faces(
    g: Arith,
    reach: real,
    error: real,
    x: Single,
    z: Single,
    half_turn: Single,
    length: real,
)
    requires
        rounds(g, reach, error),
        reach >= 1000real,
        finds_angles(g, error),
        finite(x) && finite(z),
        is_length(length, number(x), number(z)),
        finite(half_turn) && number(half_turn) == 180real,
    ensures
        faces(
            g,
            g(Op::Add(g(Op::Degrees(g(Op::Atan2(x, z)))), half_turn)),
            number(x),
            number(z),
            length,
            error * length,
            error,
        ),
{
    let angle = g(Op::Atan2(x, z));
    assert(points(g, angle, number(x), number(z), length, error * length));
    let degrees = g(Op::Degrees(angle));
    assert(rounded(
        g(Op::Add(degrees, half_turn)),
        number(degrees) + number(half_turn),
        reach,
        error,
    ));
}

pub proof fn lemma_half_turn(x: Single)
    requires
        x.bits == 0x4334_0000,
    ensures
        finite(x),
        number(x) == 180real,
{
    lemma2_to64();
    lemma_fraction(x, 134, 0xb4_0000, 0x1_0000, 180real);
}

/// A place between two others: the first, and on top of it the share of the way to the
/// second, along each axis, up to rounding.
pub proof fn law_share_of_the_way_is_a_place(
    g: Arith,
    reach: real,
    error: real,
    bound: real,
    a: Vec3,
    b: Vec3,
    share: Single,
)
    requires
        rounds(g, reach, error),
        error <= 1real && bound >= 1real && reach >= 8real * bound,
        vec_within(a, bound) && vec_within(b, bound),
        finite(share) && 0real <= number(share) && number(share) <= 1real,
    ensures
        ({
            let at = lerp(g, a, b, share);
            let s = number(share);
            let slack = (bound + 4real) * error;
            &&& vec_finite(at)
            &&& close(number(at.x), number(a.x) + s * (number(b.x) - number(a.x)), slack)
            &&& close(number(at.y), number(a.y) + s * (number(b.y) - number(a.y)), slack)
            &&& close(number(at.z), number(a.z) + s * (number(b.z) - number(a.z)), slack)
        }),
{
    lemma_share(g, reach, error, bound, a.x, b.x, share);
    lemma_share(g, reach, error, bound, a.y, b.y, share);
    lemma_share(g, reach, error, bound, a.z, b.z, share);
}

proof fn lemma_share(
    g: Arith,
    reach: real,
    error: real,
    bound: real,
    a: Single,
    b: Single,
    share: Single,
)
    requires
        rounds(g, reach, error),
        error <= 1real && bound >= 1real && reach >= 8real * bound,
        finite(a) && finite(b),
        size(number(a)) <= bound && size(number(b)) <= bound,
        finite(share) && 0real <= number(share) && number(share) <= 1real,
    ensures
        ({
            let rest = g(Op::Sub(single(ONE), share));
            let at = g(Op::Add(g(Op::Mul(a, rest)), g(Op::Mul(b, share))));
            &&& finite(at)
            &&& close(
                number(at),
                number(a) + number(share) * (number(b) - number(a)),
                (bound + 4real) * error,
            )
        }),
{
    lemma_few_numbers();
    let rest = g(Op::Sub(single(ONE), share));
    let s = number(share);
    let x = number(a);
    let y = number(b);
    assert(rounded(rest, 1real - s, reach, error));
    let k = number(rest);
    let m = k - (1real - s);
    lemma_product(x, m, bound, error);
    lemma_grows(error, 1real, bound);
    lemma_product(x, 1real - s, bound, 1real);
    lemma_product(y, s, bound, 1real);
    assert(x * k == x * (1real - s) + x * m) by (nonlinear_arith)
        requires
            m == k - (1real - s),
    ;
    let p = g(Op::Mul(a, rest));
    assert(rounded(p, x * k, reach, error));
    let q = g(Op::Mul(b, share));
    assert(rounded(q, y * s, reach, error));
    assert(rounded(g(Op::Add(p, q)), number(p) + number(q), reach, error));
    assert(x * (1real - s) + y * s == x + s * (y - x)) by (nonlinear_arith);
    assert((bound + 4real) * error == bound * error + 4real * error) by (nonlinear_arith);
}

/// One faces along the path: towards its end while the time within a round is no more
/// than the duration, and towards its start once it is more. `length` is the length of
/// the way in the plane, and `within` the time within a round.
pub proof fn law_heading_is_along_the_path(
    path: LinearPath,
    g: Arith,
    reach: real,
    error: real,
    bound: real,
    t: Single,
    within: Single,
    length: real,
)
    requires
        rounds(g, reach, error),
        finds_angles(g, error),
        error <= 1real && bound >= 1real && reach >= 40real * (bound * bound) && reach >= 1000real,
        vec_within(path.start, bound) && vec_within(path.end, bound),
        finite(path.duration_s) && number(path.duration_s) > 0real,
        within == g(Op::RemEuclid(t, g(Op::Mul(single(TWO), path.duration_s)))),
        finite(within) && 0real <= number(within),
        number(within) <= reach * number(path.duration_s),
        finite(single(SAME_PLACE)),
        square(number(path.end.x) - number(path.start.x)) + square(
            number(path.end.y) - number(path.start.y),
        ) + square(number(path.end.z) - number(path.start.z)) >= number(single(SAME_PLACE))
            + 20real * (bound * error),
        is_length(
            length,
            number(g(Op::Sub(path.end.x, path.start.x))),
            number(g(Op::Sub(path.end.z, path.start.z))),
        ),
    ensures
        ({
            let x = number(path.end.x) - number(path.start.x);
            let z = number(path.end.z) - number(path.start.z);
            let slack = error * length + error;
            let duration = number(path.duration_s);
            &&& number(within) <= duration ==> faces(
                g,
                path.heading(g, t),
                x,
                z,
                length,
                slack,
                error,
            )
            &&& number(within) > duration + error * duration ==> faces(
                g,
                path.heading(g, t),
                -x,
                -z,
                length,
                slack,
                error,
            )
        }),
{
    lemma_few_numbers();
    lemma_grows(1real, bound, bound);
    let way = vec_difference(g, path.end, path.start);
    let x = number(path.end.x) - number(path.start.x);
    let y = number(path.end.y) - number(path.start.y);
    let z = number(path.end.z) - number(path.start.z);
    assert(rounded(way.x, x, reach, error));
    assert(rounded(way.y, y, reach, error));
    assert(rounded(way.z, z, reach, error));
    lemma_squared(g, reach, error, bound, way, x, y, z);
    lemma_order(vec_dot(g, way, way), single(SAME_PLACE));
    lemma_way_there(path, g, reach, error, t, within);
    lemma_signs(way.x);
    lemma_signs(way.z);
    let half = single(HALF_TURN);
    lemma_half_turn(half);
    let a = number(way.x);
    let c = number(way.z);
    assert((-a) * (-a) == a * a && (-c) * (-c) == c * c) by (nonlinear_arith);
    lemma_faces(g, reach, error, way.x, way.z, half, length);
    lemma_faces(g, reach, error, way.x.negated(), way.z.negated(), half, length);
    let there = g(Op::Add(g(Op::Degrees(g(Op::Atan2(way.x, way.z)))), half));
    let back = g(
        Op::Add(g(Op::Degrees(g(Op::Atan2(way.x.negated(), way.z.negated())))), half),
    );
    lemma_faces_looser(g, there, a, c, x, z, length, error * length, error);
    lemma_faces_looser(g, back, -a, -c, -x, -z, length, error * length, error);
}

proof fn lemma_faces_looser(
    g: Arith,
    heading: Single,
    a: real,
    c: real,
    x: real,
    z: real,
    length: real,
    slack: real,
    error: real,
)
    requires
        faces(g, heading, a, c, length, slack, error),
        close(a, x, error) && close(c, z, error),
    ensures
        faces(g, heading, x, z, length, slack + error, error),
{
    let angle = choose|angle: Single|
        finite(angle) && #[trigger] points(g, angle, a, c, length, slack) && finite(heading)
            && close(number(heading), number(g(Op::Degrees(angle))) + 180real, error);
    assert(points(g, angle, x, z, length, slack + error));
}

/// The way leads there until the duration is over, and back after that.
proof fn lemma_way_there(
    path: LinearPath,
    g: Arith,
    reach: real,
    error: real,
    t: Single,
    within: Single,
)
    requires
        rounds(g, reach, error),
        finite(path.duration_s) && number(path.duration_s) > 0real,
        within == g(Op::RemEuclid(t, g(Op::Mul(single(TWO), path.duration_s)))),
        finite(within) && 0real <= number(within),
        number(within) <= reach * number(path.duration_s),
    ensures
        number(within) <= number(path.duration_s) ==> path.forward(g, t),
        number(within) > number(path.duration_s) + error * number(path.duration_s)
            ==> !path.forward(g, t),
{
    lemma_few_numbers();
    let d = number(path.duration_s);
    let w = number(within);
    lemma_order(path.duration_s, single(ZERO));
    lemma_divides(w, d);
    let q = w / d;
    lemma_shrinks(q, reach, d);
    let phase = g(Op::Div(within, path.duration_s));
    assert(rounded(phase, q, reach, error));
    lemma_order(phase, single(ONE));
    assert(1real * d == d);
    if w <= d {
        lemma_shrinks(q, 1real, d);
    }
    if w > d + error * d {
        if q <= 1real + error {
            lemma_grows(q, 1real + error, d);
            assert((1real + error) * d == d + error * d) by (nonlinear_arith);
        }
    }
}

} // verus!
