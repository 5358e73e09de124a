//! What holds of characters at all times.

use crate::arith::{near, vec_dot, vec_length, Arith, Op, Vec3, INFINITY, ONE, ZERO};
use crate::character::skeleton::{Placement, Quat};
use crate::npc::brain::{next_step, AnimTable};
use crate::npc::rng::{scrambled, stirred, Rng};
use crate::npc::scene::{AssetPlan, NpcConfig};
use crate::npc::system::NpcSystem;
use crate::npc::tick::{
    apart, in_reach, push_on, separated, strength_at, NpcRuntime, SEPARATION_RADIUS,
};
use crate::npc::view::{standing_at, Turn, HALF_TURN_RAD};
use crate::single::{single, Single};
use vstd::prelude::*;

verus! {

/// The generator never reaches the state zero, in which it would be stuck.
pub proof fn law_generator_never_stuck(x: u64)
    requires
        x != 0,
    ensures
        stirred(x) != 0,
{
    assert(x != 0 ==> x ^ (x << 13u64) != 0) by (bit_vector);
    let a = x ^ (x << 13u64);
    assert(a != 0 ==> a ^ (a >> 7u64) != 0) by (bit_vector);
    let b = a ^ (a >> 7u64);
    assert(b != 0 ==> b ^ (b << 17u64) != 0) by (bit_vector);
}

/// Different states stay different, so that no sequence runs into another.
pub proof fn law_generator_is_injective(x: u64, y: u64)
    requires
        stirred(x) == stirred(y),
    ensures
        x == y,
{
    let a = x ^ (x << 13u64);
    let c = y ^ (y << 13u64);
    let b = a ^ (a >> 7u64);
    let d = c ^ (c >> 7u64);
    assert(b ^ (b << 17u64) == d ^ (d << 17u64) ==> b == d) by (bit_vector);
    assert(a ^ (a >> 7u64) == c ^ (c >> 7u64) ==> a == c) by (bit_vector);
    assert(x ^ (x << 13u64) == y ^ (y << 13u64) ==> x == y) by (bit_vector);
}

/// A draw has a numerator below two to the power of twenty-four, so that the
/// number drawn lies below one.
pub proof fn law_draw_is_a_fraction(rng: Rng)
    ensures
        0 <= scrambled(rng.next().state) >> 40u64 < 0x100_0000,
{
    let x = scrambled(rng.next().state);
    assert(x >> 40u64 < 0x100_0000) by (bit_vector);
}

/// No step that is rolled is idle; a walk is the only one with a direction.
pub proof fn law_rolled_steps_walk_or_fall(
    g: Arith,
    rng: Rng,
    last_direction: Vec3,
    table: AnimTable,
    durations: Seq<Single>,
)
    ensures
        ({
            let zero = single(ZERO);
            let step = next_step(g, rng, last_direction, table, durations).0;
            &&& !(step.role is Idle)
            &&& !(step.role is Walk) ==> step.direction == (Vec3 { x: zero, y: zero, z: zero })
            &&& step.role is Walk ==> step.direction.y == zero
        }),
{
}

/// After a tick a character stands on the floor, in its spawn box.
pub proof fn law_tick_keeps_to_spawn_box(
    g: Arith,
    npc: NpcRuntime,
    dt: Single,
    table: AnimTable,
    durations: Seq<Single>,
    floor_y: Single,
)
    ensures
        npc.ticked(g, dt, table, durations, floor_y) matches Some(next) ==> {
            &&& next.pos.y == floor_y
            &&& next.spawn_min == npc.spawn_min
            &&& next.spawn_max == npc.spawn_max
            &&& in_spawn_box(next)
        },
{
}

/// The character lies in its spawn box, along each axis on which its place is a
/// number.
pub open spec fn in_spawn_box(npc: NpcRuntime) -> bool {
    &&& npc.pos.x.nan() || npc.spawn_min.x.at_most(npc.pos.x) && npc.pos.x.at_most(
        npc.spawn_max.x,
    )
    &&& npc.pos.z.nan() || npc.spawn_min.z.at_most(npc.pos.z) && npc.pos.z.at_most(
        npc.spawn_max.z,
    )
}

/// Pushing characters apart keeps each in its spawn box.
pub proof fn law_separation_keeps_to_spawn_box(
    g: Arith,
    all: Seq<NpcRuntime>,
    i: int,
    dt: Single,
)
    requires
        0 <= i < all.len(),
        in_spawn_box(all[i]),
    ensures
        separated(g, all, i, dt) matches Some(next) ==> in_spawn_box(next) && next.brain
            == all[i].brain && next.yaw_deg == all[i].yaw_deg,
{
}

/// After every tick of a scene all characters are in their spawn boxes.
pub proof fn law_scene_keeps_to_spawn_boxes<C>(
    g: Arith,
    system: NpcSystem<C>,
    dt: Single,
    durations: Seq<Vec<Single>>,
    i: int,
)
    requires
        !system.fails(g, dt, durations),
        0 <= i < system.runtimes@.len(),
    ensures
        separated(g, system.mid_tick(g, dt, durations), i, dt) matches Some(next)
            && in_spawn_box(next),
{
    let npc = system.runtimes@[i];
    let mid = system.mid_tick(g, dt, durations);
    assert(system.ticked(g, dt, durations, i) is Some);
    assert(in_spawn_box(mid[i])) by {
        reveal(NpcSystem::<_>::ticked);
        law_tick_keeps_to_spawn_box(
            g,
            npc,
            dt,
            system.tables@[i],
            durations[system.slots@[i] as int]@,
            system.floor_y,
        );
    }
    assert(separated(g, mid, i, dt) is Some);
    law_separation_keeps_to_spawn_box(g, mid, i, dt);
}

/// A zero of either sign.
pub open spec fn naught(x: Single) -> bool {
    x.magnitude() == 0
}

/// The number is no larger, in either direction, than the one with these bits.
pub open spec fn within(x: Single, bound: u32) -> bool {
    x.magnitude() <= bound
}

/// Two to the power of 60, of 61 and of 63.
pub const LARGE: u32 = 0x5d80_0000;

pub const LARGER: u32 = 0x5e00_0000;

pub const LARGEST: u32 = 0x5f00_0000;

pub const FOUR: u32 = 0x4080_0000;

/// Zero stays zero, of whatever sign: divided by what is not zero, multiplied
/// with what is finite, and added to itself. What is added to zero stays as it is,
/// but for the negative zero.
pub open spec fn zero_is_neutral(g: Arith) -> bool {
    &&& forall|e: Single, d: Single|
        naught(e) && !naught(d) && !d.nan() ==> naught(#[trigger] g(Op::Div(e, d)))
    &&& forall|e: Single, x: Single|
        naught(e) && x.magnitude() < INFINITY ==> naught(#[trigger] g(Op::Mul(e, x)))
    &&& forall|e: Single, x: Single|
        naught(e) && naught(x) ==> naught(#[trigger] g(Op::Add(e, x)))
    &&& forall|x: Single, e: Single|
        naught(e) && x.magnitude() < INFINITY && !(naught(x) && x.negative())
            ==> #[trigger] g(Op::Add(x, e)) == x
}

/// Numbers that are not too large give numbers that are not too large, and roots of
/// positive numbers are positive.
pub open spec fn stays_finite(g: Arith) -> bool {
    &&& forall|x: Single|
        single(ZERO).below(x) ==> single(ZERO).below(#[trigger] g(Op::Sqrt(x)))
    &&& forall|x: Single|
        single(ZERO).at_most(x) && within(x, LARGEST) ==> within(#[trigger] g(Op::Sqrt(x)), LARGE)
    &&& forall|a: Single, b: Single|
        within(a, LARGE) && single(ONE).at_most(b) ==> within(#[trigger] g(Op::Div(a, b)), LARGE)
    &&& forall|a: Single, b: Single|
        within(a, LARGE) && within(b, LARGE) ==> within(#[trigger] g(Op::Sub(a, b)), LARGER)
    &&& forall|a: Single, b: Single|
        within(a, LARGER) && within(b, FOUR) ==> within(#[trigger] g(Op::Mul(a, b)), LARGEST)
}

/// What a push in the plane has of height comes to nothing.
proof fn lemma_push_is_level(g: Arith, all: Seq<NpcRuntime>, i: int, n: nat)
    requires
        n <= all.len(),
        zero_is_neutral(g),
        stays_finite(g),
    ensures
        naught(push_on(g, all, i, n).y),
    decreases n,
{
    if n > 0 {
        lemma_push_is_level(g, all, i, (n - 1) as nat);
        let here = all[i].pos;
        let there = all[n - 1].pos;
        if n - 1 != i && in_reach(g, here, there) {
            let zero = single(ZERO);
            let radius = single(SEPARATION_RADIUS);
            let flat = apart(g, here, there);
            let squared = vec_dot(g, flat, flat);
            let distance = vec_length(g, flat);
            let strength = strength_at(g, distance);
            assert(within(g(Op::Mul(radius, radius)), LARGEST));
            assert(zero.below(squared) && within(squared, LARGEST));
            assert(zero.below(distance) && within(distance, LARGE));
            assert(within(g(Op::Div(distance, radius)), LARGE));
            assert(within(g(Op::Sub(single(ONE), g(Op::Div(distance, radius)))), LARGER));
            assert(within(strength, LARGEST));
            assert(naught(g(Op::Div(zero, distance))));
            assert(naught(g(Op::Mul(g(Op::Div(zero, distance)), strength))));
        }
    }
}

/// A push apart does not change the height of a character, where zero is neutral
/// and numbers stay finite.
pub proof fn law_separation_keeps_height(g: Arith, all: Seq<NpcRuntime>, i: int, dt: Single)
    requires
        0 <= i < all.len(),
        zero_is_neutral(g),
        stays_finite(g),
        dt.magnitude() < INFINITY,
        all[i].pos.y.magnitude() < INFINITY,
        !(naught(all[i].pos.y) && all[i].pos.y.negative()),
    ensures
        separated(g, all, i, dt) matches Some(next) ==> next.pos.y == all[i].pos.y,
{
    lemma_push_is_level(g, all, i, all.len());
    let push = push_on(g, all, i, all.len());
    assert(naught(g(Op::Mul(push.y, dt))));
}

/// After every tick of a scene all characters stand on the floor and in their
/// spawn boxes, where zero is neutral and numbers stay finite.
pub proof fn law_scene_keeps_to_the_floor<C>(
    g: Arith,
    system: NpcSystem<C>,
    dt: Single,
    durations: Seq<Vec<Single>>,
    i: int,
)
    requires
        !system.fails(g, dt, durations),
        0 <= i < system.runtimes@.len(),
        zero_is_neutral(g),
        stays_finite(g),
        dt.magnitude() < INFINITY,
        system.floor_y.magnitude() < INFINITY,
        !(naught(system.floor_y) && system.floor_y.negative()),
    ensures
        separated(g, system.mid_tick(g, dt, durations), i, dt) matches Some(next) && next.pos.y
            == system.floor_y && in_spawn_box(next),
{
    let mid = system.mid_tick(g, dt, durations);
    assert(system.ticked(g, dt, durations, i) is Some);
    assert(mid[i].pos.y == system.floor_y) by {
        reveal(NpcSystem::<_>::ticked);
        law_tick_keeps_to_spawn_box(
            g,
            system.runtimes@[i],
            dt,
            system.tables@[i],
            durations[system.slots@[i] as int]@,
            system.floor_y,
        );
    }
    law_scene_keeps_to_spawn_boxes(g, system, dt, durations, i);
    law_separation_keeps_height(g, mid, i, dt);
}

/// A character on its own is pushed by nobody.
pub proof fn law_lone_character_is_not_pushed(g: Arith, all: Seq<NpcRuntime>, dt: Single)
    requires
        all.len() == 1,
    ensures
        separated(g, all, 0, dt) == Some(all[0]),
{
}

/// A character without a brain keeps its animation, its heading and its place in
/// the plane, on whatever floor, while its animation time runs on.
pub proof fn law_brainless_character_stays(
    g: Arith,
    npc: NpcRuntime,
    dt: Single,
    table: AnimTable,
    durations: Seq<Single>,
    floor_y: Single,
)
    requires
        npc.brain is None,
        npc.spawn_min.x == npc.pos.x,
        npc.spawn_min.z == npc.pos.z,
        npc.spawn_max.x == npc.pos.x,
        npc.spawn_max.z == npc.pos.z,
        !npc.pos.x.nan(),
        !npc.pos.z.nan(),
    ensures
        npc.ticked(g, dt, table, durations, floor_y) == Some(
            NpcRuntime {
                pos: Vec3 { y: floor_y, ..npc.pos },
                step_anim_t: g(Op::Add(npc.step_anim_t, dt)),
                ..npc
            },
        ),
{
}

/// Only a walk turns a character: while it stands or falls it keeps the heading
/// that it walked with last.
pub proof fn law_heading_is_kept_unless_walking(
    g: Arith,
    npc: NpcRuntime,
    dt: Single,
    table: AnimTable,
    durations: Seq<Single>,
    floor_y: Single,
)
    ensures
        npc.ticked(g, dt, table, durations, floor_y) matches Some(next) ==> !(
        next.brain matches Some(brain) && brain.step.role is Walk) ==> next.yaw_deg == npc.yaw_deg,
{
}

/// An animation is played from its start with each step of a brain, and runs on
/// within a step.
pub proof fn law_steps_start_their_animation(
    g: Arith,
    npc: NpcRuntime,
    dt: Single,
    table: AnimTable,
    durations: Seq<Single>,
    floor_y: Single,
)
    ensures
        npc.ticked(g, dt, table, durations, floor_y) matches Some(next) ==> {
            ||| next.step_anim_t == g(Op::Add(npc.step_anim_t, dt)) && next.current_anim_index
                == npc.current_anim_index
            ||| next.step_anim_t == single(ZERO) && (next.brain matches Some(brain)
                && next.current_anim_index == table.clip_of(brain.step.role) && brain.elapsed
                == single(ZERO))
        },
{
}

/// Characters share a loaded asset exactly when they name the same one.
pub proof fn law_assets_are_shared(plan: AssetPlan, npcs: Seq<NpcConfig>, i: int, j: int)
    requires
        plan.serves(npcs),
        0 <= i < npcs.len(),
        0 <= j < npcs.len(),
    ensures
        plan.slots@[i] == plan.slots@[j] <==> npcs[i].asset@ == npcs[j].asset@,
{
    let a = plan.slots@[i] as int;
    let b = plan.slots@[j] as int;
    if a < b {
        assert(plan.first_users@[a] < plan.first_users@[b]);
    } else if b < a {
        assert(plan.first_users@[b] < plan.first_users@[a]);
    }
}

/// The vector lies near the one with the given coordinates. `value` tells what
/// numbers stand for, in some unit.
pub open spec fn near_vec(
    value: spec_fn(Single) -> int,
    v: Vec3,
    x: int,
    y: int,
    z: int,
    error: int,
) -> bool {
    near(value(v.x), x, error) && near(value(v.y), y, error) && near(value(v.z), z, error)
}

/// No coordinate is larger, in either direction, than `reach`.
pub open spec fn in_bounds(value: spec_fn(Single) -> int, v: Vec3, reach: int) -> bool {
    near_vec(value, v, 0, 0, 0, reach)
}

/// A vector scaled along each axis.
pub open spec fn stretched(g: Arith, scale: Vec3, v: Vec3) -> Vec3 {
    Vec3 {
        x: g(Op::Mul(scale.x, v.x)),
        y: g(Op::Mul(scale.y, v.y)),
        z: g(Op::Mul(scale.z, v.z)),
    }
}

/// The matrix of a placement scales, then rotates, then translates, give or take
/// `error`. `moved` and `rotated` tell how matrices and rotations act on vectors.
pub open spec fn places<M>(
    g: Arith,
    value: spec_fn(Single) -> int,
    moved: spec_fn(M, Vec3) -> Vec3,
    rotated: spec_fn(Quat, Vec3) -> Vec3,
    matrix: M,
    p: Placement,
    reach: int,
    error: int,
) -> bool {
    forall|v: Vec3|
        in_bounds(value, v, reach) ==> {
            let r = rotated(p.rotation, stretched(g, p.scale, v));
            near_vec(
                value,
                #[trigger] moved(matrix, v),
                value(p.translation.x) + value(r.x),
                value(p.translation.y) + value(r.y),
                value(p.translation.z) + value(r.z),
                error,
            )
        }
}

/// The rotation composed of two rotates by the second, then by the first, give or
/// take `error`.
pub open spec fn composes(
    value: spec_fn(Single) -> int,
    rotated: spec_fn(Quat, Vec3) -> Vec3,
    composed: Quat,
    first: Quat,
    second: Quat,
    reach: int,
    error: int,
) -> bool {
    forall|v: Vec3|
        in_bounds(value, v, reach) ==> {
            let r = rotated(first, rotated(second, v));
            near_vec(
                value,
                #[trigger] rotated(composed, v),
                value(r.x),
                value(r.y),
                value(r.z),
                error,
            )
        }
}

/// The rotation turns Y and Z round, give or take `error`.
pub open spec fn turns_over(
    value: spec_fn(Single) -> int,
    rotated: spec_fn(Quat, Vec3) -> Vec3,
    over: Quat,
    reach: int,
    error: int,
) -> bool {
    forall|v: Vec3|
        in_bounds(value, v, reach) ==> near_vec(
            value,
            #[trigger] rotated(over, v),
            value(v.x),
            -value(v.y),
            -value(v.z),
            error,
        )
}

/// The rotation turns about Y, give or take `error`: heights stay, and what there
/// is in the plane does not get longer than its parts together.
pub open spec fn turns_about_y(
    value: spec_fn(Single) -> int,
    rotated: spec_fn(Quat, Vec3) -> Vec3,
    heading: Quat,
    reach: int,
    error: int,
) -> bool {
    forall|v: Vec3|
        in_bounds(value, v, reach) ==> {
            let r = #[trigger] rotated(heading, v);
            let most = size(value(v.x)) + size(value(v.z)) + error;
            &&& near(value(r.y), value(v.y), error)
            &&& near(value(r.x), 0, most)
            &&& near(value(r.z), 0, most)
        }
}

/// A number without its sign.
pub open spec fn size(n: int) -> int {
    if n < 0 {
        -n
    } else {
        n
    }
}

/// The arithmetic of a character's matrix rounds by no more than `error`, on
/// numbers that stand for no more than `reach`.
pub open spec fn rounds<M>(
    g: Arith,
    turn: spec_fn(Turn) -> Quat,
    compose: spec_fn(Quat, Quat) -> Quat,
    build: spec_fn(Placement) -> M,
    moved: spec_fn(M, Vec3) -> Vec3,
    rotated: spec_fn(Quat, Vec3) -> Vec3,
    value: spec_fn(Single) -> int,
    scale: Single,
    yaw_deg: Single,
    pos: Vec3,
    reach: int,
    error: int,
) -> bool {
    let placement = standing_at(g, turn, compose, scale, yaw_deg, pos);
    let heading = turn(Turn::AboutY(g(Op::Radians(yaw_deg))));
    let over = turn(Turn::AboutX(single(HALF_TURN_RAD)));
    &&& error >= 0
    &&& value(single(ZERO)) == 0
    &&& near(value(single(ONE)), 0, reach)
    &&& near(value(scale), 0, reach - 2 * error)
    &&& near(value(g(Op::Mul(scale, single(ZERO)))), 0, error)
    &&& near(value(g(Op::Mul(scale, single(ONE)))), value(scale), error)
    &&& places(g, value, moved, rotated, build(placement), placement, reach, error)
    &&& composes(value, rotated, compose(heading, over), heading, over, reach, error)
    &&& turns_over(value, rotated, over, reach, error)
}

/// A character stands where it is placed, upright in a world whose Y axis points
/// down, whatever its heading: up to rounding, its origin comes to its place, and
/// what is one up from the origin comes to lie its scale against the axis from that
/// place.
pub proof fn law_character_stands_at_its_place<M>(
    g: Arith,
    turn: spec_fn(Turn) -> Quat,
    compose: spec_fn(Quat, Quat) -> Quat,
    build: spec_fn(Placement) -> M,
    moved: spec_fn(M, Vec3) -> Vec3,
    rotated: spec_fn(Quat, Vec3) -> Vec3,
    value: spec_fn(Single) -> int,
    scale: Single,
    yaw_deg: Single,
    pos: Vec3,
    reach: int,
    error: int,
)
    requires
        rounds(
            g,
            turn,
            compose,
            build,
            moved,
            rotated,
            value,
            scale,
            yaw_deg,
            pos,
            reach,
            error,
        ),
        turns_about_y(
            value,
            rotated,
            turn(Turn::AboutY(g(Op::Radians(yaw_deg)))),
            reach,
            error,
        ),
    ensures
        ({
            let zero = single(ZERO);
            let matrix = build(standing_at(g, turn, compose, scale, yaw_deg, pos));
            let origin = Vec3 { x: zero, y: zero, z: zero };
            let above = Vec3 { x: zero, y: single(ONE), z: zero };
            &&& near_vec(
                value,
                moved(matrix, origin),
                value(pos.x),
                value(pos.y),
                value(pos.z),
                7 * error,
            )
            &&& near_vec(
                value,
                moved(matrix, above),
                value(pos.x),
                value(pos.y) - value(scale),
                value(pos.z),
                7 * error,
            )
        }),
{
    let zero = single(ZERO);
    let placement = standing_at(g, turn, compose, scale, yaw_deg, pos);
    let matrix = build(placement);
    let heading = turn(Turn::AboutY(g(Op::Radians(yaw_deg))));
    let over = turn(Turn::AboutX(single(HALF_TURN_RAD)));
    let origin = Vec3 { x: zero, y: zero, z: zero };
    let above = Vec3 { x: zero, y: single(ONE), z: zero };
    let nothing = stretched(g, placement.scale, origin);
    let raised = stretched(g, placement.scale, above);
    assert(in_bounds(value, origin, reach));
    assert(in_bounds(value, above, reach));
    assert(in_bounds(value, nothing, reach - error));
    assert(in_bounds(value, raised, reach - error));
    let low = rotated(over, nothing);
    let high = rotated(over, raised);
    assert(near_vec(value, low, 0, 0, 0, 2 * error));
    assert(near_vec(value, high, 0, -value(scale), 0, 2 * error));
    assert(in_bounds(value, low, reach));
    assert(in_bounds(value, high, reach));
    let a = rotated(heading, low);
    let b = rotated(heading, high);
    assert(near(value(a.x), 0, 5 * error) && near(value(a.z), 0, 5 * error));
    assert(near(value(b.x), 0, 5 * error) && near(value(b.z), 0, 5 * error));
    assert(near_vec(
        value,
        rotated(compose(heading, over), nothing),
        value(a.x),
        value(a.y),
        value(a.z),
        error,
    ));
    assert(near_vec(
        value,
        rotated(compose(heading, over), raised),
        value(b.x),
        value(b.y),
        value(b.z),
        error,
    ));
}

/// With a heading of zero, which turns nothing but for rounding, a character faces
/// against the world's Z axis: up to rounding, what is one ahead of its origin comes
/// to lie its scale against the axis from its place.
pub proof fn law_character_faces_back<M>(
    g: Arith,
    turn: spec_fn(Turn) -> Quat,
    compose: spec_fn(Quat, Quat) -> Quat,
    build: spec_fn(Placement) -> M,
    moved: spec_fn(M, Vec3) -> Vec3,
    rotated: spec_fn(Quat, Vec3) -> Vec3,
    value: spec_fn(Single) -> int,
    scale: Single,
    pos: Vec3,
    reach: int,
    error: int,
)
    requires
        rounds(
            g,
            turn,
            compose,
            build,
            moved,
            rotated,
            value,
            scale,
            single(ZERO),
            pos,
            reach,
            error,
        ),
        forall|v: Vec3|
            in_bounds(value, v, reach) ==> near_vec(
                value,
                #[trigger] rotated(turn(Turn::AboutY(g(Op::Radians(single(ZERO))))), v),
                value(v.x),
                value(v.y),
                value(v.z),
                error,
            ),
    ensures
        ({
            let zero = single(ZERO);
            let matrix = build(standing_at(g, turn, compose, scale, zero, pos));
            let ahead = Vec3 { x: zero, y: zero, z: single(ONE) };
            near_vec(
                value,
                moved(matrix, ahead),
                value(pos.x),
                value(pos.y),
                value(pos.z) - value(scale),
                5 * error,
            )
        }),
{
    let zero = single(ZERO);
    let placement = standing_at(g, turn, compose, scale, zero, pos);
    let matrix = build(placement);
    let heading = turn(Turn::AboutY(g(Op::Radians(zero))));
    let over = turn(Turn::AboutX(single(HALF_TURN_RAD)));
    let ahead = Vec3 { x: zero, y: zero, z: single(ONE) };
    let scaled = stretched(g, placement.scale, ahead);
    assert(in_bounds(value, ahead, reach));
    assert(in_bounds(value, scaled, reach - error));
    let turned = rotated(over, scaled);
    assert(near_vec(value, turned, 0, 0, -value(scale), 2 * error));
    assert(in_bounds(value, turned, reach));
    let a = rotated(heading, turned);
    assert(near_vec(value, a, 0, 0, -value(scale), 3 * error));
    assert(near_vec(
        value,
        rotated(compose(heading, over), scaled),
        value(a.x),
        value(a.y),
        value(a.z),
        error,
    ));
}

/// Two headings that turn alike up to rounding, such as those a full turn apart,
/// place a character alike up to rounding.
pub proof fn law_full_turn_changes_nothing<M>(
    g: Arith,
    turn: spec_fn(Turn) -> Quat,
    compose: spec_fn(Quat, Quat) -> Quat,
    build: spec_fn(Placement) -> M,
    moved: spec_fn(M, Vec3) -> Vec3,
    rotated: spec_fn(Quat, Vec3) -> Vec3,
    value: spec_fn(Single) -> int,
    scale: Single,
    yaw_deg: Single,
    other_deg: Single,
    pos: Vec3,
    v: Vec3,
    reach: int,
    error: int,
)
    requires
        rounds(
            g,
            turn,
            compose,
            build,
            moved,
            rotated,
            value,
            scale,
            yaw_deg,
            pos,
            reach,
            error,
        ),
        rounds(
            g,
            turn,
            compose,
            build,
            moved,
            rotated,
            value,
            scale,
            other_deg,
            pos,
            reach,
            error,
        ),
        forall|w: Vec3|
            in_bounds(value, w, reach) ==> {
                let r = rotated(turn(Turn::AboutY(g(Op::Radians(other_deg)))), w);
                near_vec(
                    value,
                    #[trigger] rotated(turn(Turn::AboutY(g(Op::Radians(yaw_deg)))), w),
                    value(r.x),
                    value(r.y),
                    value(r.z),
                    error,
                )
            },
        in_bounds(value, v, reach),
        in_bounds(value, stretched(g, Vec3 { x: scale, y: scale, z: scale }, v), reach - error),
    ensures
        ({
            let one = moved(build(standing_at(g, turn, compose, scale, yaw_deg, pos)), v);
            let other = moved(build(standing_at(g, turn, compose, scale, other_deg, pos)), v);
            near_vec(value, one, value(other.x), value(other.y), value(other.z), 5 * error)
        }),
{
    let one = standing_at(g, turn, compose, scale, yaw_deg, pos);
    let other = standing_at(g, turn, compose, scale, other_deg, pos);
    let scaled = stretched(g, one.scale, v);
    let over = turn(Turn::AboutX(single(HALF_TURN_RAD)));
    let turned = rotated(over, scaled);
    assert(in_bounds(value, scaled, reach));
    assert(in_bounds(value, turned, reach));
    let a = rotated(turn(Turn::AboutY(g(Op::Radians(yaw_deg)))), turned);
    let b = rotated(turn(Turn::AboutY(g(Op::Radians(other_deg)))), turned);
    assert(near_vec(value, a, value(b.x), value(b.y), value(b.z), error));
    assert(near_vec(
        value,
        rotated(one.rotation, scaled),
        value(a.x),
        value(a.y),
        value(a.z),
        error,
    ));
    assert(near_vec(
        value,
        rotated(other.rotation, scaled),
        value(b.x),
        value(b.y),
        value(b.z),
        error,
    ));
}

} // verus!
