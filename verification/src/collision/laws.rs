//! What holds of the collision queries as a whole.

use crate::arith::{near, vec_dot, vec_sum, Arith, Op, Vec3, INFINITY, ZERO};
use crate::collision::capsule::{
    capsule_at, kept_clear, nothing_deep, with_normal, Capsule, CellBox, Deepest,
    MAX_RESOLVE_ITERATIONS, PENETRATION_EPSILON,
};
use crate::collision::octree::{
    leaf_bit, mixed_leaf, node_offset, octant, Cell, Fault, VoxelCollision, SOLID_LEAF_MARKER,
};
use crate::collision::ray::{clipped, distance_at, hit_at, out_of_reach, RayWalk, Stretch, WalkEnd};
use crate::single::{single, Single};
use vstd::prelude::*;

verus! {

/// Nothing outside of the grid is solid, whatever the tables hold.
pub proof fn law_outside_is_empty(scene: VoxelCollision, cell: Cell)
    requires
        !scene.num_voxels.holds(cell),
    ensures
        scene.solid(cell) == Some(false),
{
}

/// A root that is marked solid makes every voxel of the grid solid.
pub proof fn law_solid_root_fills_grid(scene: VoxelCollision, cell: Cell)
    requires
        scene.nodes@.len() > 0,
        scene.nodes@[0] == SOLID_LEAF_MARKER,
        scene.leaf_size > 0,
        scene.num_voxels.holds(cell),
    ensures
        scene.solid(cell) == Some(true),
{
}

/// The 64 voxels of a 4 by 4 by 4 leaf have 64 different bits.
pub proof fn law_leaf_bits_are_distinct(a: Cell, b: Cell)
    ensures
        0 <= leaf_bit(a) < 64,
        leaf_bit(a) == leaf_bit(b) <==> a.x as int % 4 == b.x as int % 4 && a.y as int % 4
            == b.y as int % 4 && a.z as int % 4 == b.z as int % 4,
{
}

/// A leaf is one word of 64 bits, the low half first, and a voxel is the bit at its
/// place in the leaf, whatever the sign of its index.
pub proof fn law_leaf_is_one_word(leaf_data: Seq<u32>, node: u32, cell: Cell)
    requires
        node_offset(node) * 2 + 1 < leaf_data.len(),
    ensures
        ({
            let first = node_offset(node) * 2;
            let word = (leaf_data[first] as u64) | ((leaf_data[first + 1] as u64) << 32u64);
            mixed_leaf(leaf_data, node, cell) == Some(
                (word >> (leaf_bit(cell) as u64)) & 1 == 1,
            )
        }),
{
    let first = node_offset(node) * 2;
    let low = leaf_data[first];
    let high = leaf_data[first + 1];
    let bit = leaf_bit(cell);
    if bit < 32 {
        let b = bit as u32;
        vstd::bits::lemma_u32_shr_is_div(low, b);
        assert(b < 32 ==> ((low as u64 | ((high as u64) << 32u64)) >> (b as u64)) & 1 == ((low >> b)
            % 2) as u64) by (bit_vector);
    } else {
        let b = (bit - 32) as u32;
        vstd::bits::lemma_u32_shr_is_div(high, b);
        assert(b < 32 ==> ((low as u64 | ((high as u64) << 32u64)) >> ((b + 32) as u64)) & 1 == ((
        high >> b) % 2) as u64) by (bit_vector);
    }
}

/// A leaf tells voxels apart only by their indices modulo four, and nodes only by
/// their offsets.
pub proof fn law_leaf_sees_low_bits(leaf_data: Seq<u32>, one: u32, other: u32, a: Cell, b: Cell)
    requires
        node_offset(one) == node_offset(other),
        a.x as int % 4 == b.x as int % 4,
        a.y as int % 4 == b.y as int % 4,
        a.z as int % 4 == b.z as int % 4,
    ensures
        mixed_leaf(leaf_data, one, a) == mixed_leaf(leaf_data, other, b),
{
}

/// The octree tells voxels apart only by the block they lie in and by their
/// place in a 4 by 4 by 4 leaf.
pub proof fn law_state_is_per_block_and_place(scene: VoxelCollision, a: Cell, b: Cell)
    requires
        scene.num_voxels.holds(a),
        scene.num_voxels.holds(b),
        scene.leaf_size > 0,
        a.x as int / scene.leaf_size as int == b.x as int / scene.leaf_size as int,
        a.y as int / scene.leaf_size as int == b.y as int / scene.leaf_size as int,
        a.z as int / scene.leaf_size as int == b.z as int / scene.leaf_size as int,
        leaf_bit(a) == leaf_bit(b),
    ensures
        scene.solid(a) == scene.solid(b),
{
    lemma_subtree_per_block(scene, 0, scene.tree_depth as nat, a, b);
}

proof fn lemma_subtree_per_block(
    scene: VoxelCollision,
    index: int,
    levels: nat,
    a: Cell,
    b: Cell,
)
    requires
        scene.leaf_size > 0,
        a.x as int / scene.leaf_size as int == b.x as int / scene.leaf_size as int,
        a.y as int / scene.leaf_size as int == b.y as int / scene.leaf_size as int,
        a.z as int / scene.leaf_size as int == b.z as int / scene.leaf_size as int,
        leaf_bit(a) == leaf_bit(b),
    ensures
        scene.subtree(index, levels, a) == scene.subtree(index, levels, b),
    decreases levels,
{
    if 0 <= index < scene.nodes@.len() && levels > 0 {
        let node = scene.nodes@[index];
        let size = scene.leaf_size as int;
        let child = octant(
            a.x as int / size,
            a.y as int / size,
            a.z as int / size,
            (levels - 1) as nat,
        );
        lemma_subtree_per_block(
            scene,
            crate::collision::octree::node_offset(node) + crate::collision::octree::ones_below(
                crate::collision::octree::child_mask(node),
                child,
            ),
            (levels - 1) as nat,
            a,
            b,
        );
    }
}

/// The walk after `k` steps.
pub open spec fn walk_after(g: Arith, walk: RayWalk, k: nat) -> RayWalk
    decreases k,
{
    if k == 0 {
        walk
    } else {
        walk_after(g, walk.next(g), (k - 1) as nat)
    }
}

/// The walk is in a solid voxel after `k` steps and was in none before; it
/// has not left the grid nor passed the largest distance on the way.
pub open spec fn first_solid_after(
    scene: VoxelCollision,
    g: Arith,
    walk: RayWalk,
    dir: Vec3,
    max_dist: Single,
    k: nat,
) -> bool {
    &&& scene.solid(walk_after(g, walk, k).cell) == Some(true)
    &&& forall|j: nat| j < k ==> scene.solid((#[trigger] walk_after(g, walk, j)).cell) == Some(false)
    &&& forall|j: nat|
        0 < j && j <= k ==> {
            &&& scene.num_voxels.holds((#[trigger] walk_after(g, walk, j)).cell)
            &&& !out_of_reach(g, dir, walk_after(g, walk, j).t, max_dist)
        }
}

/// A ray stops in the first solid voxel on its way: it passed none before, and
/// reports where it entered.
pub proof fn law_ray_stops_at_first_solid(
    scene: VoxelCollision,
    g: Arith,
    walk: RayWalk,
    dir: Vec3,
    max_dist: Single,
    steps: nat,
)
    ensures
        scene.walk_end(g, walk, dir, max_dist, steps) matches WalkEnd::Hit(t) ==> exists|k: nat|
            k < steps && walk_after(g, walk, k).t == t && #[trigger] first_solid_after(
                scene,
                g,
                walk,
                dir,
                max_dist,
                k,
            ),
    decreases steps,
{
    if let WalkEnd::Hit(t) = scene.walk_end(g, walk, dir, max_dist, steps) {
        if scene.solid(walk.cell) == Some(true) {
            assert(walk_after(g, walk, 0) == walk);
            assert(first_solid_after(scene, g, walk, dir, max_dist, 0));
        } else {
            let next = walk.next(g);
            law_ray_stops_at_first_solid(scene, g, next, dir, max_dist, (steps - 1) as nat);
            let k = choose|k: nat|
                k < steps - 1 && walk_after(g, next, k).t == t && #[trigger] first_solid_after(
                    scene,
                    g,
                    next,
                    dir,
                    max_dist,
                    k,
                );
            let last = (k + 1) as nat;
            assert(walk_after(g, walk, last) == walk_after(g, next, k));
            assert forall|j: nat| j < last implies scene.solid(
                (#[trigger] walk_after(g, walk, j)).cell,
            ) == Some(false) by {
                if j > 0 {
                    assert(walk_after(g, walk, j) == walk_after(g, next, (j - 1) as nat));
                }
            }
            assert forall|j: nat| 0 < j && j <= last implies {
                &&& scene.num_voxels.holds((#[trigger] walk_after(g, walk, j)).cell)
                &&& !out_of_reach(g, dir, walk_after(g, walk, j).t, max_dist)
            } by {
                assert(walk_after(g, walk, j) == walk_after(g, next, (j - 1) as nat));
                if j == 1 {
                    assert(walk_after(g, next, 0) == next);
                }
            }
            assert(scene.solid(walk_after(g, walk, last).cell) == Some(true));
            assert(first_solid_after(scene, g, walk, dir, max_dist, last));
        }
    }
}

/// Each step of a walk changes one coordinate of the voxel, by the step of that
/// axis, and leaves the steps as they are.
pub proof fn law_walk_moves_along_one_axis(g: Arith, walk: RayWalk)
    requires
        walk.neighbourly(),
        i64::MIN < walk.cell.x < i64::MAX,
        i64::MIN < walk.cell.y < i64::MAX,
        i64::MIN < walk.cell.z < i64::MAX,
    ensures
        walk.next(g).step == walk.step,
        ({
            let a = walk.cell;
            let b = walk.next(g).cell;
            ||| b.x - a.x == walk.step.x && b.y == a.y && b.z == a.z
            ||| b.x == a.x && b.y - a.y == walk.step.y && b.z == a.z
            ||| b.x == a.x && b.y == a.y && b.z - a.z == walk.step.z
        }),
{
}

/// The stretch starts at zero or after it, and does not end before it starts.
pub open spec fn in_order(s: Stretch) -> bool {
    &&& single(ZERO).at_most(s.near)
    &&& s.near.at_most(s.far)
}

pub proof fn lemma_clip_keeps_order(
    g: Arith,
    s: Stretch,
    o: Single,
    d: Single,
    low: Single,
    high: Single,
)
    requires
        in_order(s),
    ensures
        clipped(g, s, o, d, low, high) matches Some(r) ==> in_order(r) && s.near.at_most(r.near)
            && r.far.at_most(s.far),
{
}

/// Clipping against the grid only ever narrows the ray: what is left starts at
/// the origin or after it.
pub proof fn law_ray_is_clipped_to_grid(
    scene: VoxelCollision,
    g: Arith,
    origin: Vec3,
    dir: Vec3,
)
    ensures
        scene.inside(g, origin, dir) matches Some(s) ==> in_order(s),
{
    let low = scene.grid_min;
    let high = vec_sum(g, scene.grid_min, scene.extent(g));
    let whole = Stretch { near: single(ZERO), far: single(INFINITY) };
    lemma_clip_keeps_order(g, whole, origin.x, dir.x, low.x, high.x);
    if let Some(x) = clipped(g, whole, origin.x, dir.x, low.x, high.x) {
        lemma_clip_keeps_order(g, x, origin.y, dir.y, low.y, high.y);
        if let Some(y) = clipped(g, x, origin.y, dir.y, low.y, high.y) {
            lemma_clip_keeps_order(g, y, origin.z, dir.z, low.z, high.z);
        }
    }
}

proof fn lemma_hit_is_in_reach(
    scene: VoxelCollision,
    g: Arith,
    origin: Vec3,
    dir: Vec3,
    max_dist: Single,
)
    ensures
        scene.cast(g, origin, dir, max_dist) matches Ok(Some(hit)) ==> exists|t: Single|
            hit == #[trigger] hit_at(g, origin, dir, t) && !out_of_reach(g, dir, t, max_dist),
{
    if let Some(s) = scene.inside(g, origin, dir) {
        let n = scene.num_voxels;
        let steps = (n.x + n.y + n.z) as nat;
        let walk = scene.walk_start(g, origin, dir, s.near);
        law_ray_stops_at_first_solid(scene, g, walk, dir, max_dist, steps);
        if let WalkEnd::Hit(t) = scene.walk_end(g, walk, dir, max_dist, steps) {
            let k = choose|k: nat|
                k < steps && walk_after(g, walk, k).t == t && #[trigger] first_solid_after(
                    scene,
                    g,
                    walk,
                    dir,
                    max_dist,
                    k,
                );
            assert(walk_after(g, walk, 0) == walk);
            assert(walk_after(g, walk, k).t == t);
            if !out_of_reach(g, dir, s.near, max_dist) {
                assert(!out_of_reach(g, dir, t, max_dist));
                assert(hit_at(g, origin, dir, t).t == distance_at(g, dir, t));
            }
        }
    }
}

/// A hit never lies beyond the largest distance.
pub proof fn law_hit_is_within_reach(
    scene: VoxelCollision,
    g: Arith,
    origin: Vec3,
    dir: Vec3,
    max_dist: Single,
)
    ensures
        scene.cast(g, origin, dir, max_dist) matches Ok(Some(hit)) ==> !max_dist.below(hit.t),
{
    lemma_hit_is_in_reach(scene, g, origin, dir, max_dist);
}

/// A hit lies on the ray: some multiple of the direction leads from the origin
/// to it, no infinite one, and the distance is the length of that multiple.
pub proof fn law_hit_lies_on_the_ray(
    scene: VoxelCollision,
    g: Arith,
    origin: Vec3,
    dir: Vec3,
    max_dist: Single,
)
    ensures
        scene.cast(g, origin, dir, max_dist) matches Ok(Some(hit)) ==> exists|t: Single|
            hit == #[trigger] hit_at(g, origin, dir, t) && !single(INFINITY).at_most(t),
{
    lemma_hit_is_in_reach(scene, g, origin, dir, max_dist);
}

/// `b` is at least as deep as `a`, and still a number.
pub open spec fn no_shallower(a: Deepest, b: Deepest) -> bool {
    a.push.depth.at_most(b.push.depth)
}

proof fn lemma_row(
    scene: VoxelCollision,
    g: Arith,
    capsule: Capsule,
    cells: CellBox,
    x: int,
    y: int,
    z: int,
    best: Deepest,
)
    requires
        !best.push.depth.nan(),
        i32::MIN <= x,
        cells.max.x <= i32::MAX,
    ensures
        scene.along_row(g, capsule, cells, x, y, z, best) matches Some(end) ==> {
            &&& no_shallower(best, end)
            &&& forall|i: int|
                x <= i <= cells.max.x ==> (#[trigger] scene.push_of(
                    g,
                    capsule,
                    Cell { x: i as i64, y: y as i64, z: z as i64 },
                ) matches Some(Some(push)) ==> !end.push.depth.below(push.depth))
        },
    decreases cells.max.x - x + 1,
{
    if x <= cells.max.x {
        let cell = Cell { x: x as i64, y: y as i64, z: z as i64 };
        if let Some(next) = scene.deepened(g, capsule, best, cell) {
            lemma_row(scene, g, capsule, cells, x + 1, y, z, next);
            if let Some(end) = scene.along_row(g, capsule, cells, x, y, z, best) {
                assert forall|i: int| x <= i <= cells.max.x implies (#[trigger] scene.push_of(
                    g,
                    capsule,
                    Cell { x: i as i64, y: y as i64, z: z as i64 },
                ) matches Some(Some(push)) ==> !end.push.depth.below(push.depth)) by {
                    if i == x {
                        assert(no_shallower(next, end));
                    }
                }
            }
        }
    }
}

proof fn lemma_layer(
    scene: VoxelCollision,
    g: Arith,
    capsule: Capsule,
    cells: CellBox,
    y: int,
    z: int,
    best: Deepest,
)
    requires
        !best.push.depth.nan(),
        i32::MIN <= cells.min.x,
        cells.max.x <= i32::MAX,
    ensures
        scene.along_layer(g, capsule, cells, y, z, best) matches Some(end) ==> {
            &&& no_shallower(best, end)
            &&& forall|i: int, j: int|
                cells.min.x <= i <= cells.max.x && y <= j <= cells.max.y ==> (
                #[trigger] scene.push_of(
                    g,
                    capsule,
                    Cell { x: i as i64, y: j as i64, z: z as i64 },
                ) matches Some(Some(push)) ==> !end.push.depth.below(push.depth))
        },
    decreases cells.max.y - y + 1,
{
    if y <= cells.max.y {
        lemma_row(scene, g, capsule, cells, cells.min.x as int, y, z, best);
        if let Some(next) = scene.along_row(g, capsule, cells, cells.min.x as int, y, z, best) {
            lemma_layer(scene, g, capsule, cells, y + 1, z, next);
            if let Some(end) = scene.along_layer(g, capsule, cells, y, z, best) {
                assert forall|i: int, j: int|
                    cells.min.x <= i <= cells.max.x && y <= j <= cells.max.y implies (
                #[trigger] scene.push_of(
                    g,
                    capsule,
                    Cell { x: i as i64, y: j as i64, z: z as i64 },
                ) matches Some(Some(push)) ==> !end.push.depth.below(push.depth)) by {
                    if j == y {
                        assert(no_shallower(next, end));
                    }
                }
            }
        }
    }
}

proof fn lemma_box(
    scene: VoxelCollision,
    g: Arith,
    capsule: Capsule,
    cells: CellBox,
    z: int,
    best: Deepest,
)
    requires
        !best.push.depth.nan(),
        i32::MIN <= cells.min.x,
        cells.max.x <= i32::MAX,
    ensures
        scene.along_box(g, capsule, cells, z, best) matches Some(end) ==> {
            &&& no_shallower(best, end)
            &&& forall|i: int, j: int, k: int|
                cells.min.x <= i <= cells.max.x && cells.min.y <= j <= cells.max.y && z <= k
                    <= cells.max.z ==> (#[trigger] scene.push_of(
                    g,
                    capsule,
                    Cell { x: i as i64, y: j as i64, z: k as i64 },
                ) matches Some(Some(push)) ==> !end.push.depth.below(push.depth))
        },
    decreases cells.max.z - z + 1,
{
    if z <= cells.max.z {
        lemma_layer(scene, g, capsule, cells, cells.min.y as int, z, best);
        if let Some(next) = scene.along_layer(g, capsule, cells, cells.min.y as int, z, best) {
            lemma_box(scene, g, capsule, cells, z + 1, next);
            if let Some(end) = scene.along_box(g, capsule, cells, z, best) {
                assert forall|i: int, j: int, k: int|
                    cells.min.x <= i <= cells.max.x && cells.min.y <= j <= cells.max.y && z <= k
                        <= cells.max.z implies (#[trigger] scene.push_of(
                    g,
                    capsule,
                    Cell { x: i as i64, y: j as i64, z: k as i64 },
                ) matches Some(Some(push)) ==> !end.push.depth.below(push.depth)) by {
                    if k == z {
                        assert(no_shallower(next, end));
                    }
                }
            }
        }
    }
}

/// No voxel that a capsule touches reaches deeper into it than the one whose
/// push is taken.
pub proof fn law_deepest_voxel_pushes(
    scene: VoxelCollision,
    g: Arith,
    capsule: Capsule,
    cell: Cell,
)
    requires
        scene.touched(g, capsule).min.x <= cell.x <= scene.touched(g, capsule).max.x,
        scene.touched(g, capsule).min.y <= cell.y <= scene.touched(g, capsule).max.y,
        scene.touched(g, capsule).min.z <= cell.z <= scene.touched(g, capsule).max.z,
    ensures
        scene.deepest(g, capsule) matches Some(end) ==> (scene.push_of(
            g,
            capsule,
            cell,
        ) matches Some(Some(push)) ==> !end.push.depth.below(push.depth)),
{
    let cells = scene.touched(g, capsule);
    lemma_box(scene, g, capsule, cells, cells.min.z as int, nothing_deep());
    assert(cell == Cell { x: cell.x as int as i64, y: cell.y as int as i64, z: cell.z as int as i64 });
}

/// A capsule that no solid voxel pushes is left where it is.
pub proof fn law_clear_capsule_stays(
    scene: VoxelCollision,
    g: Arith,
    center: Vec3,
    half_height: Single,
    radius: Single,
)
    requires
        scene.deepest(g, capsule_at(g, center, half_height, radius)) matches Some(best)
            && !best.found,
    ensures
        scene.capsule_push(g, center, half_height, radius) == Ok::<Option<Vec3>, Fault>(None),
{
    assert(MAX_RESOLVE_ITERATIONS > 0);
}

/// Where a capsule is after at most `passes` passes, each of which pushes it by the
/// voxel that reaches deepest into it, and how many of them found such a voxel. The
/// first that finds none is the last.
pub open spec fn pushed_to(
    scene: VoxelCollision,
    g: Arith,
    center: Vec3,
    half_height: Single,
    radius: Single,
    normals: Seq<Vec3>,
    passes: nat,
) -> Option<(Vec3, nat)>
    decreases passes,
{
    if passes == 0 {
        Some((center, 0))
    } else {
        match scene.deepest(g, capsule_at(g, center, half_height, radius)) {
            None => None,
            Some(best) => if !best.found {
                Some((center, 0))
            } else {
                match pushed_to(
                    scene,
                    g,
                    vec_sum(g, center, kept_clear(g, best.push.by, normals)),
                    half_height,
                    radius,
                    with_normal(g, normals, best.push.by),
                    (passes - 1) as nat,
                ) {
                    None => None,
                    Some((end, pushes)) => Some((end, pushes + 1)),
                }
            },
        }
    }
}

/// No solid voxel pushes the capsule.
pub open spec fn clear_at(
    scene: VoxelCollision,
    g: Arith,
    center: Vec3,
    half_height: Single,
    radius: Single,
) -> bool {
    scene.deepest(g, capsule_at(g, center, half_height, radius)) matches Some(best) && !best.found
}

proof fn lemma_pushed_to(
    scene: VoxelCollision,
    g: Arith,
    center: Vec3,
    half_height: Single,
    radius: Single,
    sum: Vec3,
    normals: Seq<Vec3>,
    pushed: bool,
    passes: nat,
)
    ensures
        match scene.resolved(g, center, half_height, radius, sum, normals, pushed, passes) {
            None => pushed_to(scene, g, center, half_height, radius, normals, passes) is None,
            Some((_, moved)) => {
                &&& pushed_to(
                    scene,
                    g,
                    center,
                    half_height,
                    radius,
                    normals,
                    passes,
                ) matches Some((end, pushes))
                &&& pushes <= passes
                &&& pushes == passes || clear_at(scene, g, end, half_height, radius)
                &&& moved == (pushed || pushes > 0)
            },
        },
    decreases passes,
{
    if passes > 0 {
        if let Some(best) = scene.deepest(g, capsule_at(g, center, half_height, radius)) {
            if best.found {
                let by = kept_clear(g, best.push.by, normals);
                lemma_pushed_to(
                    scene,
                    g,
                    vec_sum(g, center, by),
                    half_height,
                    radius,
                    vec_sum(g, sum, by),
                    with_normal(g, normals, best.push.by),
                    true,
                    (passes - 1) as nat,
                );
            }
        }
    }
}

/// A capsule ends up clear, or each of the passes found a voxel to push it by.
/// Where none of them did, there is nothing to return.
pub proof fn law_capsule_is_freed_or_passes_are_used_up(
    scene: VoxelCollision,
    g: Arith,
    center: Vec3,
    half_height: Single,
    radius: Single,
)
    requires
        scene.nodes@.len() > 0,
        scene.capsule_push(g, center, half_height, radius) is Ok,
    ensures
        pushed_to(
            scene,
            g,
            center,
            half_height,
            radius,
            Seq::empty(),
            MAX_RESOLVE_ITERATIONS as nat,
        ) matches Some((end, pushes)) && {
            &&& pushes <= MAX_RESOLVE_ITERATIONS
            &&& pushes == MAX_RESOLVE_ITERATIONS || {
                &&& clear_at(scene, g, end, half_height, radius)
                &&& scene.capsule_push(g, end, half_height, radius) == Ok::<Option<Vec3>, Fault>(
                    None,
                )
            }
            &&& pushes == 0 ==> end == center && scene.capsule_push(
                g,
                center,
                half_height,
                radius,
            ) == Ok::<Option<Vec3>, Fault>(None)
        },
{
    let zero = single(ZERO);
    lemma_pushed_to(
        scene,
        g,
        center,
        half_height,
        radius,
        Vec3 { x: zero, y: zero, z: zero },
        Seq::empty(),
        false,
        MAX_RESOLVE_ITERATIONS as nat,
    );
    if let Some((end, pushes)) = pushed_to(
        scene,
        g,
        center,
        half_height,
        radius,
        Seq::empty(),
        MAX_RESOLVE_ITERATIONS as nat,
    ) {
        if pushes != MAX_RESOLVE_ITERATIONS {
            law_clear_capsule_stays(scene, g, end, half_height, radius);
        }
    }
}

/// A displacement is only returned where it is longer than 1e-4: its square is
/// above the square of that.
pub proof fn law_displacement_is_worth_it(
    scene: VoxelCollision,
    g: Arith,
    center: Vec3,
    half_height: Single,
    radius: Single,
)
    ensures
        scene.capsule_push(g, center, half_height, radius) matches Ok(Some(d)) ==> g(
            Op::Mul(single(PENETRATION_EPSILON), single(PENETRATION_EPSILON)),
        ).below(vec_dot(g, d, d)),
{
}

/// The sum of two vectors rounds by no more than `error` along each axis. `value`
/// tells what numbers stand for, in some unit.
pub open spec fn sum_rounds(
    g: Arith,
    value: spec_fn(Single) -> int,
    error: int,
    a: Vec3,
    b: Vec3,
) -> bool {
    near_sum(value, vec_sum(g, a, b), a, b, error)
}

/// The sums that are formed while a capsule is pushed round by no more than
/// `error`: those of where it is, and those of how far it was moved.
pub open spec fn pushes_round(
    scene: VoxelCollision,
    g: Arith,
    value: spec_fn(Single) -> int,
    error: int,
    center: Vec3,
    half_height: Single,
    radius: Single,
    sum: Vec3,
    normals: Seq<Vec3>,
    passes: nat,
) -> bool
    decreases passes,
{
    passes > 0 ==> match scene.deepest(g, capsule_at(g, center, half_height, radius)) {
        None => true,
        Some(best) => best.found ==> {
            let by = kept_clear(g, best.push.by, normals);
            &&& sum_rounds(g, value, error, center, by)
            &&& sum_rounds(g, value, error, sum, by)
            &&& pushes_round(
                scene,
                g,
                value,
                error,
                vec_sum(g, center, by),
                half_height,
                radius,
                vec_sum(g, sum, by),
                with_normal(g, normals, best.push.by),
                (passes - 1) as nat,
            )
        },
    }
}

/// A vector lies near the sum of two others.
pub open spec fn near_sum(
    value: spec_fn(Single) -> int,
    v: Vec3,
    a: Vec3,
    b: Vec3,
    error: int,
) -> bool {
    &&& near(value(v.x), value(a.x) + value(b.x), error)
    &&& near(value(v.y), value(a.y) + value(b.y), error)
    &&& near(value(v.z), value(a.z) + value(b.z), error)
}

proof fn lemma_pushes_round(
    scene: VoxelCollision,
    g: Arith,
    value: spec_fn(Single) -> int,
    error: int,
    start: Vec3,
    off: int,
    center: Vec3,
    half_height: Single,
    radius: Single,
    sum: Vec3,
    normals: Seq<Vec3>,
    pushed: bool,
    passes: nat,
)
    requires
        pushes_round(
            scene,
            g,
            value,
            error,
            center,
            half_height,
            radius,
            sum,
            normals,
            passes,
        ),
        near_sum(value, center, start, sum, off),
    ensures
        scene.resolved(
            g,
            center,
            half_height,
            radius,
            sum,
            normals,
            pushed,
            passes,
        ) matches Some((total, _)) ==> (pushed_to(
            scene,
            g,
            center,
            half_height,
            radius,
            normals,
            passes,
        ) matches Some((end, pushes)) && near_sum(
            value,
            end,
            start,
            total,
            off + 2 * (pushes * error),
        )),
    decreases passes,
{
    assert(0 * error == 0);
    if passes > 0 {
        if let Some(best) = scene.deepest(g, capsule_at(g, center, half_height, radius)) {
            if best.found {
                let by = kept_clear(g, best.push.by, normals);
                let next = vec_sum(g, center, by);
                let more = with_normal(g, normals, best.push.by);
                lemma_pushes_round(
                    scene,
                    g,
                    value,
                    error,
                    start,
                    off + 2 * error,
                    next,
                    half_height,
                    radius,
                    vec_sum(g, sum, by),
                    more,
                    true,
                    (passes - 1) as nat,
                );
                if let Some((_, n)) = pushed_to(
                    scene,
                    g,
                    next,
                    half_height,
                    radius,
                    more,
                    (passes - 1) as nat,
                ) {
                    assert((n + 1) * error == n * error + error) by (nonlinear_arith);
                }
            }
        }
    }
}

/// Moved by the displacement that was returned, a capsule is clear up to rounding:
/// it lies near the place that the passes pushed it to, and there it is clear and
/// asked again there is nothing to do, unless each of the passes found a voxel to
/// push it by.
pub proof fn law_displaced_capsule_is_clear(
    scene: VoxelCollision,
    g: Arith,
    value: spec_fn(Single) -> int,
    error: int,
    center: Vec3,
    half_height: Single,
    radius: Single,
    d: Vec3,
)
    requires
        scene.capsule_push(g, center, half_height, radius) == Ok::<Option<Vec3>, Fault>(Some(d)),
        value(single(ZERO)) == 0,
        pushes_round(
            scene,
            g,
            value,
            error,
            center,
            half_height,
            radius,
            Vec3 { x: single(ZERO), y: single(ZERO), z: single(ZERO) },
            Seq::empty(),
            MAX_RESOLVE_ITERATIONS as nat,
        ),
        sum_rounds(g, value, error, center, d),
    ensures
        pushed_to(
            scene,
            g,
            center,
            half_height,
            radius,
            Seq::empty(),
            MAX_RESOLVE_ITERATIONS as nat,
        ) matches Some((end, pushes)) && {
            let there = vec_sum(g, center, d);
            &&& near(value(there.x), value(end.x), 2 * (pushes * error) + error)
            &&& near(value(there.y), value(end.y), 2 * (pushes * error) + error)
            &&& near(value(there.z), value(end.z), 2 * (pushes * error) + error)
            &&& pushes == MAX_RESOLVE_ITERATIONS || {
                &&& clear_at(scene, g, end, half_height, radius)
                &&& scene.capsule_push(g, end, half_height, radius) == Ok::<Option<Vec3>, Fault>(
                    None,
                )
            }
        },
{
    let zero = single(ZERO);
    law_capsule_is_freed_or_passes_are_used_up(scene, g, center, half_height, radius);
    lemma_pushes_round(
        scene,
        g,
        value,
        error,
        center,
        0,
        center,
        half_height,
        radius,
        Vec3 { x: zero, y: zero, z: zero },
        Seq::empty(),
        false,
        MAX_RESOLVE_ITERATIONS as nat,
    );
}

} // verus!
