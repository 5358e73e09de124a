//! What holds of characters and their assets at all times.

use crate::arith::{near, Arith, Op, Vec3, ONE, ZERO};
use crate::character::buffers::{laid_out, mesh_words, vertex_words, VERTEX_WORDS};
use crate::character::gltf::{ancestry, parent_from, parent_of, MeshData, Node};
use crate::character::image::{expanded, PixelFormat};
use crate::character::path::{lerp, LinearPath, TWO};
use crate::character::skeleton::{pose_of, Placement, Quat, Skeleton};
use crate::character::static_mesh::joined;
use crate::character::track::{lemma_one_spot, lies, ordered, Spot, Track};
use crate::single::{single, Single};
use vstd::prelude::*;

verus! {

/// Before its first key a track has the first value, and after its last key
/// the last.
pub proof fn law_track_holds_its_ends<V>(
    track: Track<V>,
    g: Arith,
    h: spec_fn(V, V, Single) -> V,
    t: Single,
)
    requires
        ordered(track.times@),
        track.times@.len() > 0,
        track.values@.len() >= track.times@.len(),
        track.times@.len() <= usize::MAX,
    ensures
        t.at_most(track.times@[0]) ==> track.at(g, h, t) == Some(track.values@[0]),
        track.times@.last().at_most(t) && !t.at_most(track.times@[0]) ==> track.at(g, h, t) == Some(
            track.values@[track.times@.len() - 1],
        ),
{
    let times = track.times@;
    if t.at_most(times[0]) {
        let spot = Spot::Held(0);
        assert(lies(times, t, spot));
        let chosen = choose|s: Spot| lies(times, t, s) && times.len() > 0;
        lemma_one_spot(times, t, spot, chosen);
    } else if times.last().at_most(t) {
        let spot = Spot::Held((times.len() - 1) as usize);
        assert(lies(times, t, spot));
        let chosen = choose|s: Spot| lies(times, t, s) && times.len() > 0;
        lemma_one_spot(times, t, spot, chosen);
    }
}

/// A track that is not linear has no values but those of its keys, and between
/// two keys that of the nearer one.
pub proof fn law_stepped_track_keeps_to_its_keys<V>(
    track: Track<V>,
    g: Arith,
    h: spec_fn(V, V, Single) -> V,
    t: Single,
)
    requires
        ordered(track.times@),
        !track.linear,
    ensures
        track.at(g, h, t) matches Some(value) ==> track.values@.contains(value),
        forall|i: usize|
            track.times@.len() > 0 && #[trigger] lies(track.times@, t, Spot::After(i))
                ==> track.at(g, h, t) == track.value_of(track.nearer_key(g, t, i as int)),
{
    let times = track.times@;
    assert forall|i: usize|
        times.len() > 0 && #[trigger] lies(times, t, Spot::After(i)) implies track.at(g, h, t)
        == track.value_of(track.nearer_key(g, t, i as int)) by {
        let chosen = choose|s: Spot| lies(times, t, s) && times.len() > 0;
        lemma_one_spot(times, t, Spot::After(i), chosen);
    }
}

/// A path without duration is not walked: its position never changes.
pub proof fn law_still_path_stays(path: LinearPath, g: Arith, t: Single, u: Single)
    requires
        path.still(),
    ensures
        lerp(g, path.start, path.end, path.share(g, t)) == lerp(
            g,
            path.start,
            path.end,
            path.share(g, u),
        ),
        path.share(g, t) == single(ZERO),
        path.heading(g, t) == path.heading(g, u),
{
}

/// The share of the way lies between zero and one, where the time within a round
/// does not come out below zero, and on the way back what is left of the round
/// comes out between zero and one.
pub proof fn law_share_is_a_fraction(path: LinearPath, g: Arith, t: Single)
    requires
        path.still() || {
            let phase = path.phase(g, t);
            let back = g(Op::Sub(single(TWO), phase));
            &&& single(ZERO).at_most(phase)
            &&& single(ONE).at_most(phase) ==> single(ZERO).at_most(back) && back.at_most(
                single(ONE),
            )
        },
    ensures
        single(ZERO).at_most(path.share(g, t)),
        path.share(g, t).at_most(single(ONE)),
{
}

/// How far along a way of length `length`, walked to and fro without end, one is
/// after `x`.
pub open spec fn to_and_fro(x: int, length: int) -> int {
    let within = x % (2 * length);
    if within <= length {
        within
    } else {
        2 * length - within
    }
}

/// The arithmetic of the share at time `t` rounds by no more than `error`: `value`
/// tells what numbers stand for, in some unit, and each operation gives a number
/// that stands for the right result, give or take `error`. Doubling the duration
/// does not round, and comparing goes by what the numbers stand for.
pub open spec fn share_rounds(
    path: LinearPath,
    g: Arith,
    value: spec_fn(Single) -> int,
    error: int,
    t: Single,
) -> bool {
    let one = value(single(ONE));
    let length = value(path.duration_s);
    let round = g(Op::Mul(single(TWO), path.duration_s));
    let within = g(Op::RemEuclid(t, round));
    let phase = path.phase(g, t);
    &&& error >= 0
    &&& value(single(ZERO)) == 0
    &&& one > 0
    &&& length > 0
    &&& !path.still()
    &&& value(round) == 2 * length
    &&& near(value(within), value(t) % value(round), error)
    &&& near(value(phase) * length, value(within) * one, error * length)
    &&& near(value(g(Op::Sub(single(TWO), phase))), 2 * one - value(phase), error)
    &&& phase.at_most(single(ONE)) <==> value(phase) <= one
}

/// How far off the share may be, times the duration.
pub open spec fn share_error(path: LinearPath, value: spec_fn(Single) -> int, error: int) -> int {
    error * (2 * value(path.duration_s) + value(single(ONE)))
}

proof fn lemma_share_rounds(
    path: LinearPath,
    g: Arith,
    value: spec_fn(Single) -> int,
    error: int,
    t: Single,
)
    requires
        share_rounds(path, g, value, error, t),
    ensures
        near(
            value(path.share(g, t)) * value(path.duration_s),
            to_and_fro(value(t), value(path.duration_s)) * value(single(ONE)),
            share_error(path, value, error),
        ),
{
    let one = value(single(ONE));
    let length = value(path.duration_s);
    let exact = value(t) % (2 * length);
    let within = value(g(Op::RemEuclid(t, g(Op::Mul(single(TWO), path.duration_s)))));
    let phase = value(path.phase(g, t));
    let back = value(g(Op::Sub(single(TWO), path.phase(g, t))));
    assert(near(within * one, exact * one, error * one)) by (nonlinear_arith)
        requires
            near(within, exact, error),
            one > 0,
    ;
    assert(near(phase * length, exact * one, error * length + error * one));
    assert(near(back * length, 2 * one * length - phase * length, error * length))
        by (nonlinear_arith)
        requires
            near(back, 2 * one - phase, error),
            length > 0,
    ;
    assert(phase <= one <==> phase * length <= one * length) by (nonlinear_arith)
        requires
            length > 0,
    ;
    assert(exact <= length <==> exact * one <= length * one) by (nonlinear_arith)
        requires
            one > 0,
    ;
    assert((2 * length - exact) * one == 2 * (length * one) - exact * one) by (nonlinear_arith);
    assert(2 * one * length == 2 * (length * one) && one * length == length * one)
        by (nonlinear_arith);
    assert(error * (2 * length + one) == 2 * (error * length) + error * one) by (nonlinear_arith);
    assert(error * length >= 0 && error * one >= 0) by (nonlinear_arith)
        requires
            error >= 0,
            length > 0,
            one > 0,
    ;
}

/// Up to rounding, the share of the way climbs and falls evenly: as a share of
/// `one` it is the way that is walked to and fro as a share of the duration. So it
/// is zero at first and one after the duration, repeats after twice the duration,
/// is the same before time zero as after it, and makes no jump. Both sides are
/// given times the duration.
pub proof fn law_share_goes_to_and_fro(
    path: LinearPath,
    g: Arith,
    value: spec_fn(Single) -> int,
    error: int,
    t: Single,
    u: Single,
)
    requires
        share_rounds(path, g, value, error, t),
        share_rounds(path, g, value, error, u),
    ensures
        ({
            let one = value(single(ONE));
            let length = value(path.duration_s);
            let off = share_error(path, value, error);
            let a = value(path.share(g, t)) * length;
            let b = value(path.share(g, u)) * length;
            &&& near(a, to_and_fro(value(t), length) * one, off)
            &&& -off <= a <= one * length + off
            &&& value(t) == 0 ==> near(a, 0, off)
            &&& value(t) == length ==> near(a, one * length, off)
            &&& value(u) == value(t) + 2 * length ==> near(a, b, 2 * off)
            &&& value(u) == -value(t) ==> near(a, b, 2 * off)
            &&& 0 <= value(t) <= length && 0 <= value(u) <= length ==> near(
                b - a,
                (value(u) - value(t)) * one,
                2 * off,
            )
            &&& length <= value(t) <= 2 * length && length <= value(u) <= 2 * length ==> near(
                b - a,
                (value(t) - value(u)) * one,
                2 * off,
            )
        }),
{
    let one = value(single(ONE));
    let length = value(path.duration_s);
    let x = to_and_fro(value(t), length);
    let y = to_and_fro(value(u), length);
    lemma_share_rounds(path, g, value, error, t);
    lemma_share_rounds(path, g, value, error, u);
    law_way_to_and_fro(value(t), length);
    law_way_to_and_fro(value(u), length);
    assert(0 <= x * one <= one * length) by (nonlinear_arith)
        requires
            0 <= x <= length,
            one > 0,
    ;
    assert(x == length ==> x * one == one * length) by (nonlinear_arith);
    assert(x == 0 ==> x * one == 0) by (nonlinear_arith);
    assert((y - x) * one == y * one - x * one) by (nonlinear_arith);
}

/// The way walked to and fro lies between zero and its length, climbs over the
/// first stretch and falls over the second, repeats after both, and is the same
/// in either direction of time.
pub proof fn law_way_to_and_fro(x: int, length: int)
    requires
        length > 0,
    ensures
        0 <= to_and_fro(x, length) <= length,
        0 <= x <= length ==> to_and_fro(x, length) == x,
        length <= x <= 2 * length ==> to_and_fro(x, length) == 2 * length - x,
        to_and_fro(x + 2 * length, length) == to_and_fro(x, length),
        to_and_fro(-x, length) == to_and_fro(x, length),
{
    let round = 2 * length;
    vstd::arithmetic::div_mod::lemma_mod_bound(x, round);
    vstd::arithmetic::div_mod::lemma_mod_add_multiples_vanish(x, round);
    if 0 <= x < round {
        vstd::arithmetic::div_mod::lemma_small_mod(x as nat, round as nat);
    }
    vstd::arithmetic::div_mod::lemma_mod_self_0(round);
    let within = x % round;
    let rounds = x / round;
    vstd::arithmetic::div_mod::lemma_fundamental_div_mod(x, round);
    if within == 0 {
        assert(-x == round * (-rounds) + 0) by (nonlinear_arith)
            requires
                x == round * rounds + within,
                within == 0,
        ;
        vstd::arithmetic::div_mod::lemma_fundamental_div_mod_converse(-x, round, -rounds, 0);
    } else {
        assert(-x == round * (-rounds - 1) + (round - within)) by (nonlinear_arith)
            requires
                x == round * rounds + within,
        ;
        vstd::arithmetic::div_mod::lemma_fundamental_div_mod_converse(
            -x,
            round,
            -rounds - 1,
            round - within,
        );
    }
}

/// An image with whole pixels has four bytes for each of them afterwards.
pub proof fn law_expanded_has_four_bytes_per_pixel(format: PixelFormat, pixels: Seq<u8>, count: nat)
    requires
        format != PixelFormat::Wide,
        pixels.len() == count * format.size(),
    ensures
        expanded(format, pixels).len() == count * 4,
{
    if format == PixelFormat::R8G8B8A8 {
    } else {
        let size = format.size();
        assert(count * size / size == count) by (nonlinear_arith)
            requires
                size > 0,
        ;
    }
}

/// Without an animation every joint is at rest.
pub proof fn law_no_animation_is_rest(
    g: Arith,
    lerp: spec_fn(Vec3, Vec3, Single) -> Vec3,
    slerp: spec_fn(Quat, Quat, Single) -> Quat,
    t: Single,
    i: int,
    rest: Placement,
)
    ensures
        pose_of(g, lerp, slerp, None, t, i, rest) == Some(rest),
{
}

/// In a skeleton whose parents come before their children every joint moves
/// with its parent, and every root with the armature.
pub proof fn law_children_follow_parents<M>(
    skeleton: Skeleton<M>,
    times: spec_fn(M, M) -> M,
    local: Seq<M>,
    identity: M,
    n: nat,
)
    requires
        n <= skeleton.joints@.len(),
        local.len() == skeleton.joints@.len(),
        forall|i: int|
            0 <= i < skeleton.joints@.len() ==> ((#[trigger] skeleton.joints@[i]).parent matches Some(
                p,
            ) ==> p < i),
    ensures
        skeleton.globals(times, local, identity, n) matches Some(global) && global.len() == n
            && forall|i: int|
            0 <= i < n ==> #[trigger] global[i] == match skeleton.joints@[i].parent {
                Some(p) => times(global[p as int], local[i]),
                None => times(skeleton.armature, local[i]),
            },
    decreases n,
{
    if n > 0 {
        law_children_follow_parents(skeleton, times, local, identity, (n - 1) as nat);
        let before = skeleton.globals(times, local, identity, (n - 1) as nat)->0;
        assert(skeleton.joints@[n - 1].parent matches Some(p) ==> p < n - 1);
        let global = skeleton.globals(times, local, identity, n)->0;
        assert forall|i: int| 0 <= i < n implies #[trigger] global[i]
            == match skeleton.joints@[i].parent {
            Some(p) => times(global[p as int], local[i]),
            None => times(skeleton.armature, local[i]),
        } by {
            assert(skeleton.joints@[i].parent matches Some(p) ==> p < i);
            if i < n - 1 {
                assert(global[i] == before[i]);
            }
        }
    }
}

/// Each vertex takes up 64 bytes.
pub proof fn law_vertex_buffer_size(mesh: MeshData, n: nat, bytes: Seq<u8>)
    requires
        laid_out(bytes, mesh_words(mesh, n)),
    ensures
        bytes.len() == n * 64,
{
    lemma_mesh_words_len(mesh, n);
}

proof fn lemma_mesh_words_len(mesh: MeshData, n: nat)
    ensures
        mesh_words(mesh, n).len() == n * VERTEX_WORDS,
    decreases n,
{
    if n > 0 {
        lemma_mesh_words_len(mesh, (n - 1) as nat);
        assert(vertex_words(mesh, n - 1).len() == VERTEX_WORDS);
    }
}

proof fn lemma_parent_in_range(nodes: Seq<Node>, child: int, from: int)
    ensures
        parent_from(nodes, child, from) matches Some(p) ==> 0 <= p < nodes.len(),
    decreases nodes.len() - from,
{
    if 0 <= from < nodes.len() {
        lemma_parent_in_range(nodes, child, from + 1);
    }
}

/// Every tail of a chain of ancestors is the chain of the node before it.
proof fn lemma_ancestry_tail(nodes: Seq<Node>, child: int, fuel: nat, i: int)
    requires
        ancestry(nodes, child, fuel) is Some,
        0 <= i < (ancestry(nodes, child, fuel)->0).len(),
    ensures
        0 <= (ancestry(nodes, child, fuel)->0)[i] < nodes.len(),
        ancestry(nodes, (ancestry(nodes, child, fuel)->0)[i], fuel) == Some(
            (ancestry(nodes, child, fuel)->0).skip(i + 1),
        ),
    decreases fuel,
{
    let chain = ancestry(nodes, child, fuel)->0;
    let p = parent_of(nodes, child)->0;
    lemma_parent_in_range(nodes, child, 0);
    let rest = ancestry(nodes, p, (fuel - 1) as nat)->0;
    assert(chain == seq![p] + rest);
    lemma_more_fuel(nodes, p, (fuel - 1) as nat, fuel);
    if i == 0 {
        assert(chain.skip(1) =~= rest);
    } else {
        lemma_ancestry_tail(nodes, p, (fuel - 1) as nat, i - 1);
        assert(chain[i] == rest[i - 1]);
        lemma_more_fuel(nodes, chain[i], (fuel - 1) as nat, fuel);
        assert(chain.skip(i + 1) =~= rest.skip(i));
    }
}

/// More fuel gives the same chain.
proof fn lemma_more_fuel(nodes: Seq<Node>, child: int, less: nat, more: nat)
    requires
        less <= more,
        ancestry(nodes, child, less) is Some,
    ensures
        ancestry(nodes, child, more) == ancestry(nodes, child, less),
    decreases less,
{
    if let Some(p) = parent_of(nodes, child) {
        lemma_more_fuel(nodes, p, (less - 1) as nat, (more - 1) as nat);
    }
}

/// Less fuel suffices for a chain that is no longer than it.
proof fn lemma_enough_fuel(nodes: Seq<Node>, child: int, fuel: nat, enough: nat)
    requires
        ancestry(nodes, child, fuel) is Some,
        (ancestry(nodes, child, fuel)->0).len() <= enough,
    ensures
        ancestry(nodes, child, enough) is Some,
    decreases fuel,
{
    if let Some(p) = parent_of(nodes, child) {
        let rest = ancestry(nodes, p, (fuel - 1) as nat)->0;
        assert((ancestry(nodes, child, fuel)->0) == seq![p] + rest);
        lemma_enough_fuel(nodes, p, (fuel - 1) as nat, (enough - 1) as nat);
    }
}

/// A chain of ancestors that has not ended after as many steps as there are
/// nodes never ends.
pub proof fn law_long_ancestry_is_endless(nodes: Seq<Node>, child: int, fuel: nat)
    requires
        ancestry(nodes, child, nodes.len()) is None,
    ensures
        ancestry(nodes, child, fuel) is None,
{
    if ancestry(nodes, child, fuel) is Some {
        let chain = ancestry(nodes, child, fuel)->0;
        assert(chain.no_duplicates()) by {
            assert forall|i: int, j: int|
                0 <= i < chain.len() && 0 <= j < chain.len() && i != j implies chain[i]
                != chain[j] by {
                lemma_ancestry_tail(nodes, child, fuel, i);
                lemma_ancestry_tail(nodes, child, fuel, j);
                assert(chain.skip(i + 1).len() != chain.skip(j + 1).len());
            }
        }
        let all = vstd::set_lib::set_int_range(0, nodes.len() as int);
        vstd::set_lib::lemma_int_range(0, nodes.len() as int);
        chain.unique_seq_to_set();
        assert forall|p: int| chain.to_set().contains(p) implies all.contains(p) by {
            let i = choose|i: int| 0 <= i < chain.len() && chain[i] == p;
            lemma_ancestry_tail(nodes, child, fuel, i);
        }
        vstd::set_lib::lemma_len_subset(chain.to_set(), all);
        lemma_enough_fuel(nodes, child, fuel, nodes.len());
    }
}

/// Joining one more primitive keeps the vertices and triangles before it.
pub proof fn law_joining_keeps_triangles(
    triangles: (Seq<Vec3>, Seq<u32>),
    positions: Seq<Vec3>,
    indices: Seq<u32>,
)
    ensures
        joined(triangles, positions, indices) matches Ok(all) ==> triangles.0.is_prefix_of(all.0)
            && triangles.1.is_prefix_of(all.1),
{
    if let Ok(all) = joined(triangles, positions, indices) {
        assert(triangles.0 =~= all.0.take(triangles.0.len() as int));
        assert(triangles.1 =~= all.1.take(triangles.1.len() as int));
    }
}

/// Where triangles and a primitive name only vertices that they have, so do they
/// together.
pub proof fn law_joined_triangles_have_their_vertices(
    triangles: (Seq<Vec3>, Seq<u32>),
    positions: Seq<Vec3>,
    indices: Seq<u32>,
)
    requires
        forall|i: int|
            0 <= i < triangles.1.len() ==> #[trigger] triangles.1[i] < triangles.0.len(),
        forall|i: int| 0 <= i < indices.len() ==> #[trigger] indices[i] < positions.len(),
    ensures
        joined(triangles, positions, indices) matches Ok(all) ==> forall|i: int|
            0 <= i < all.1.len() ==> #[trigger] all.1[i] < all.0.len(),
{
    if let Ok(all) = joined(triangles, positions, indices) {
        let base = triangles.0.len();
        assert forall|i: int| 0 <= i < all.1.len() implies #[trigger] all.1[i] < all.0.len() by {
            if i >= triangles.1.len() {
                let k = i - triangles.1.len();
                assert(base + indices[k] <= u32::MAX);
                assert(all.1[i] == (base + indices[k]) as u32);
            } else {
                assert(all.1[i] == triangles.1[i]);
            }
        }
    }
}

} // verus!
