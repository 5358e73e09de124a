//! Loading a voxel scene, and point, ray and capsule queries.

use brush::arith::{Op, Vec3};
use brush::collision::load::{binary_path, check_version, Bounds, LoadError, VoxelMetadata};
use brush::collision::octree::{Cell, Fault, GridSize, VoxelCollision, SOLID_LEAF_MARKER};
use brush::single::Single;

fn s(x: f32) -> Single {
    Single { bits: x.to_bits() }
}

fn v(x: Single) -> f32 {
    f32::from_bits(x.bits)
}

fn vec3(x: f32, y: f32, z: f32) -> Vec3 {
    Vec3::new(s(x), s(y), s(z))
}

fn compute(op: Op) -> Single {
    match op {
        Op::Add(a, b) => s(v(a) + v(b)),
        Op::Sub(a, b) => s(v(a) - v(b)),
        Op::Mul(a, b) => s(v(a) * v(b)),
        Op::Div(a, b) => s(v(a) / v(b)),
        Op::Sqrt(a) => s(v(a).sqrt()),
        Op::Floor(a) => s(v(a).floor()),
        Op::Round(a) => s(v(a).round()),
        Op::FromInt(i) => s(i as f32),
        _ => unreachable!("not used by collision queries"),
    }
}

fn cell(x: i64, y: i64, z: i64) -> Cell {
    Cell { x, y, z }
}

/// Bounds of 30 by 8 by 37 metres with voxels of five centimetres. All below
/// the floor at -0.6 (Y points down) is solid.
fn warehouse_metadata() -> VoxelMetadata {
    VoxelMetadata {
        version: String::from("1.1"),
        grid_bounds: Bounds { min: vec3(-15.0, -7.0, -18.0), max: vec3(15.0, 1.0, 19.0) },
        voxel_resolution: s(0.05),
        leaf_size: 4,
        tree_depth: 8,
        node_count: 13,
        leaf_data_count: 0,
    }
}

/// Blocks whose index along Y has the bits 00 and a one from the top: the three
/// topmost levels tell the floor from the air.
fn warehouse_bytes() -> Vec<u8> {
    let mut words: Vec<u32> = vec![0x3300_0001];
    words.extend_from_slice(&[0x3300_0005; 4]);
    words.extend_from_slice(&[0xcc00_0009; 4]);
    words.extend_from_slice(&[SOLID_LEAF_MARKER; 4]);
    words.iter().flat_map(|w| w.to_le_bytes()).collect()
}

fn warehouse() -> VoxelCollision {
    VoxelCollision::decode(&warehouse_metadata(), &warehouse_bytes(), &compute).expect("load voxel")
}

fn floor_y_at(coll: &VoxelCollision, x: f32, z: f32) -> Option<f32> {
    let origin = vec3(x, v(coll.grid_min().y) - 0.1, z);
    let max = v(coll.grid_size(&compute).y) + 1.0;
    coll.ray_cast(&compute, origin, vec3(0.0, 1.0, 0.0), s(max))
        .expect("tables are whole")
        .map(|hit| v(hit.pos.y))
}

#[test]
fn loads_warehouse_voxel() {
    let coll = warehouse();

    let size = coll.grid_size(&compute);
    let (x, y, z) = (v(size.x), v(size.y), v(size.z));
    assert!(x > 20.0 && x < 40.0, "unexpected X span: {x}");
    assert!(y > 6.0 && y < 10.0, "unexpected Y span: {y}");
    assert!(z > 25.0 && z < 45.0, "unexpected Z span: {z}");

    assert_eq!(coll.is_solid(&compute, vec3(1000.0, 1000.0, 1000.0)), Ok(false));

    let min = coll.grid_min();
    let origin = vec3(v(min.x) + x * 0.5, v(min.y) - 1.0, v(min.z) + z * 0.5);
    let hit = coll.ray_cast(&compute, origin, vec3(0.0, 1.0, 0.0), s(y + 2.0));
    assert!(hit.expect("tables are whole").is_some(), "expected a vertical hit through the warehouse");
}

#[test]
fn warehouse_npc_offsets() {
    let coll = warehouse();
    for (name, x, z) in [
        ("alice.start", 6.0, 0.21),
        ("alice.end", 1.0, 0.21),
        ("bob.start", 1.0, 1.5),
        ("bob.end", 6.0, 1.5),
    ] {
        let fy = floor_y_at(&coll, x, z);
        assert!(fy.is_some(), "{name}: ray missed floor");
    }
}

const GRAVITY: f32 = 9.81;
const HALF: f32 = 0.5;
const RADIUS: f32 = 0.3;
const BODY_HALF: f32 = HALF + RADIUS;

fn simulate(coll: &VoxelCollision, start_y: f32, x: f32, z: f32, frames: usize, dt: f32) -> f32 {
    let (mut px, mut py, mut pz) = (x, start_y, z);
    let mut vel_y: f32 = 0.0;
    for _ in 0..frames {
        vel_y += GRAVITY * dt;
        py += vel_y * dt;
        let cc = vec3(px, py - BODY_HALF, pz);
        if let Some(push) = coll.query_capsule(&compute, cc, s(HALF), s(RADIUS)).expect("whole") {
            px += v(push.x);
            py += v(push.y);
            pz += v(push.z);
            if v(push.y) < 0.0 {
                vel_y = 0.0;
            }
        }
    }
    py
}

#[test]
fn settles_near_floor() {
    let coll = warehouse();

    let (start_y, x, z) = (-0.99, 6.0, 0.21);
    let floor = floor_y_at(&coll, x, z).expect("floor under alice");
    let gap = floor - simulate(&coll, start_y, x, z, 60, 1.0 / 30.0);

    let (start_y, x, z) = (-0.99, 1.0, 1.5);
    let floor = floor_y_at(&coll, x, z).expect("floor under bob");
    let gap_bob = floor - simulate(&coll, start_y, x, z, 60, 1.0 / 30.0);

    assert!(gap.abs() < 0.1, "alice off floor by {:.3} m", gap);
    assert!(gap_bob.abs() < 0.1, "bob off floor by {:.3} m", gap_bob);
}

#[test]
fn decoding_lays_the_grid_over_the_bounds() {
    let coll = warehouse();
    assert_eq!(coll.num_voxels, GridSize { x: 600, y: 160, z: 740 });
    assert_eq!(coll.nodes.len(), 13);
    assert_eq!(coll.nodes[0], 0x3300_0001);
    assert!(coll.leaf_data.is_empty());
    assert_eq!(coll.voxel_resolution(), s(0.05));
    assert_eq!(coll.grid_min(), vec3(-15.0, -7.0, -18.0));
}

#[test]
fn short_binary_is_rejected() {
    let bytes = warehouse_bytes();
    let err = VoxelCollision::decode(&warehouse_metadata(), &bytes[..51], &compute).unwrap_err();
    assert_eq!(err.message(), "voxel binary truncated: expected 52 bytes, got 51");
    assert!(VoxelCollision::decode(&warehouse_metadata(), &bytes[..52], &compute).is_ok());
}

#[test]
fn old_versions_are_rejected() {
    let mut meta = warehouse_metadata();
    meta.version = String::from("1.0");
    let err = check_version(&meta, Some(s(1.0))).unwrap_err();
    assert!(matches!(&err, LoadError::Version(text) if text == "1.0"));
    assert_eq!(
        err.message(),
        "voxel format v1.0 not supported (need v1.1+, X/Y flip not handled)"
    );
    assert!(check_version(&meta, Some(s(1.1))).is_ok());
    assert!(check_version(&meta, None).is_ok());
}

#[test]
fn the_binary_lies_beside_the_metadata() {
    assert_eq!(binary_path("assets/a.voxel.json"), "assets/a.voxel.bin");
    assert_eq!(binary_path("a.json"), "a.json");
    assert_eq!(binary_path("x.voxel.json.voxel.json"), "x.voxel.bin.voxel.bin");
}

/// One leaf of four voxels along each edge, with the given bits.
fn leaf(low: u32, high: u32) -> VoxelCollision {
    VoxelCollision {
        grid_min: vec3(0.0, 0.0, 0.0),
        num_voxels: GridSize { x: 4, y: 4, z: 4 },
        voxel_resolution: s(1.0),
        leaf_size: 4,
        tree_depth: 0,
        nodes: vec![0],
        leaf_data: vec![low, high],
    }
}

#[test]
fn a_mixed_leaf_holds_a_bit_for_each_voxel() {
    let coll = leaf(1 << 6, 1 << 31);
    assert_eq!(coll.is_voxel_solid(cell(2, 1, 0)), Ok(true));
    assert_eq!(coll.is_voxel_solid(cell(3, 3, 3)), Ok(true));
    let mut solid = 0;
    for z in 0..4 {
        for y in 0..4 {
            for x in 0..4 {
                if coll.is_voxel_solid(cell(x, y, z)) == Ok(true) {
                    solid += 1;
                }
            }
        }
    }
    assert_eq!(solid, 2);
}

#[test]
fn nothing_is_solid_outside_of_the_grid() {
    let coll = leaf(u32::MAX, u32::MAX);
    assert_eq!(coll.is_voxel_solid(cell(3, 3, 3)), Ok(true));
    assert_eq!(coll.is_voxel_solid(cell(4, 0, 0)), Ok(false));
    assert_eq!(coll.is_voxel_solid(cell(0, -1, 0)), Ok(false));
    assert_eq!(coll.is_solid(&compute, vec3(-0.5, 1.0, 1.0)), Ok(false));
    assert_eq!(coll.is_solid(&compute, vec3(3.5, 0.5, 2.5)), Ok(true));
}

#[test]
fn a_table_that_is_left_is_told() {
    let mut coll = leaf(0, 0);
    coll.leaf_data.clear();
    assert_eq!(coll.is_voxel_solid(cell(0, 0, 0)), Err(Fault));
    coll.nodes = vec![0x0100_0005];
    coll.tree_depth = 1;
    assert_eq!(coll.is_voxel_solid(cell(0, 0, 0)), Err(Fault));
    coll.nodes.clear();
    assert_eq!(coll.is_voxel_solid(cell(0, 0, 0)), Ok(false));
}

#[test]
fn children_are_found_by_the_mask() {
    // Children 1 and 6 exist, in this order: the first is solid.
    let coll = VoxelCollision {
        grid_min: vec3(0.0, 0.0, 0.0),
        num_voxels: GridSize { x: 8, y: 8, z: 8 },
        voxel_resolution: s(1.0),
        leaf_size: 4,
        tree_depth: 1,
        nodes: vec![0x4200_0001, SOLID_LEAF_MARKER, 0],
        leaf_data: vec![1, 0],
    };
    assert_eq!(coll.is_voxel_solid(cell(5, 0, 0)), Ok(true));
    assert_eq!(coll.is_voxel_solid(cell(0, 4, 4)), Ok(true));
    assert_eq!(coll.is_voxel_solid(cell(1, 4, 4)), Ok(false));
    assert_eq!(coll.is_voxel_solid(cell(0, 0, 0)), Ok(false));
}

#[test]
fn a_ray_stops_at_the_first_solid_voxel() {
    // Solid at x = 2, y = 1, z = 0.
    let coll = leaf(1 << 6, 0);
    let hit = coll
        .ray_cast(&compute, vec3(-1.0, 1.5, 0.5), vec3(1.0, 0.0, 0.0), s(10.0))
        .unwrap()
        .unwrap();
    assert_eq!(hit.t, s(3.0));
    assert_eq!(hit.pos, vec3(2.0, 1.5, 0.5));
    let back = coll
        .ray_cast(&compute, vec3(5.0, 1.5, 0.5), vec3(-1.0, 0.0, 0.0), s(10.0))
        .unwrap()
        .unwrap();
    assert_eq!(back.pos, vec3(3.0, 1.5, 0.5));
}

#[test]
fn a_ray_ends_at_its_reach() {
    let coll = leaf(1 << 6, 0);
    let origin = vec3(-1.0, 1.5, 0.5);
    let along = vec3(1.0, 0.0, 0.0);
    assert_eq!(coll.ray_cast(&compute, origin, along, s(2.5)), Ok(None));
    assert_eq!(coll.ray_cast(&compute, origin, vec3(-1.0, 0.0, 0.0), s(9.0)), Ok(None));
    assert_eq!(coll.ray_cast(&compute, vec3(-1.0, 9.0, 0.5), along, s(9.0)), Ok(None));
}

#[test]
fn a_hit_tells_the_distance_whatever_the_length_of_the_direction() {
    // Solid at x = 0, y = 3, z = 0.
    let coll = leaf(0x1000, 0);
    let origin = vec3(0.5, -1.0, 0.5);
    let hit = coll.ray_cast(&compute, origin, vec3(0.0, 2.0, 0.0), s(10.0)).unwrap().unwrap();
    assert_eq!(hit.pos, vec3(0.5, 3.0, 0.5));
    assert_eq!(hit.t, s(4.0));
    let short = coll.ray_cast(&compute, origin, vec3(0.0, 0.5, 0.0), s(10.0)).unwrap().unwrap();
    assert_eq!(short, hit);
    // The reach is a distance too.
    assert_eq!(coll.ray_cast(&compute, origin, vec3(0.0, 2.0, 0.0), s(3.0)), Ok(None));
    assert_eq!(coll.ray_cast(&compute, origin, vec3(0.0, 0.5, 0.0), s(4.0)), Ok(Some(hit)));
    assert_eq!(coll.ray_cast(&compute, origin, vec3(0.0, 2.0, 0.0), s(0.5)), Ok(None));
}

#[test]
fn directions_may_be_tiny_or_huge() {
    // Solid at x = 2, y = 1, z = 0, and at x = 0, y = 0, z = 1.
    let coll = leaf(1 << 6 | 1 << 16, 0);
    // Along no axis does the ray get anywhere.
    let still = vec3(0.0, 0.0, 1e-30);
    assert_eq!(coll.ray_cast(&compute, vec3(0.5, 0.5, 0.5), still, s(10.0)), Ok(None));
    let far = vec3(1e20, 0.0, 0.0);
    let hit = coll.ray_cast(&compute, vec3(-1.0, 1.5, 0.5), far, s(10.0)).unwrap().unwrap();
    assert!((v(hit.t) - 3.0).abs() < 1e-5);
    assert!((v(hit.pos.x) - 2.0).abs() < 1e-5);
    assert_eq!(coll.ray_cast(&compute, vec3(-1.0, 1.5, 0.5), far, s(2.5)), Ok(None));
}

#[test]
fn leaves_go_by_the_low_bits() {
    let coll = leaf(1 << 6, 1 << 31);
    assert_eq!(coll.check_mixed_leaf(0, cell(2, 1, 0)), Ok(true));
    assert_eq!(coll.check_mixed_leaf(0xff00_0000, cell(-2, 5, -4)), Ok(true));
    assert_eq!(coll.check_mixed_leaf(0, cell(-1, -1, -1)), Ok(true));
    assert_eq!(coll.check_mixed_leaf(0, cell(-1, 1, 0)), Ok(false));
    assert_eq!(coll.check_mixed_leaf(1, cell(2, 1, 0)), Err(Fault));
}

#[test]
fn a_capsule_is_pushed_out() {
    let coll = leaf(u32::MAX, u32::MAX);
    let push = coll
        .query_capsule(&compute, vec3(2.0, -0.7, 2.0), s(0.5), s(0.5))
        .unwrap()
        .unwrap();
    assert_eq!(v(push.x), 0.0);
    assert_eq!(v(push.z), 0.0);
    assert!((v(push.y) + 0.3).abs() < 1e-4);
    // Moved there, it is clear.
    let freed = vec3(2.0, v(push.y) - 0.7, 2.0);
    assert_eq!(coll.query_capsule(&compute, freed, s(0.5), s(0.5)), Ok(None));
    // What is no deeper than the least displacement is left alone.
    let hardly = vec3(2.0, -1.0 + 0.00005, 2.0);
    assert_eq!(coll.query_capsule(&compute, hardly, s(0.5), s(0.5)), Ok(None));
}

#[test]
fn a_capsule_is_pushed_from_deep_inside() {
    let coll = leaf(u32::MAX, u32::MAX);
    let push = coll.query_capsule(&compute, vec3(2.0, 2.0, 2.0), s(0.5), s(0.5)).unwrap().unwrap();
    assert!(v(push.x).abs() + v(push.y).abs() + v(push.z).abs() > 1e-4);
}

#[test]
fn a_clear_capsule_stays() {
    let coll = leaf(u32::MAX, u32::MAX);
    let push = coll.query_capsule(&compute, vec3(2.0, -5.0, 2.0), s(0.5), s(0.5));
    assert_eq!(push, Ok(None));
    let mut empty = leaf(0, 0);
    empty.nodes.clear();
    assert_eq!(empty.query_capsule(&compute, vec3(2.0, 2.0, 2.0), s(0.5), s(0.5)), Ok(None));
}
