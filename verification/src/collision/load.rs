//! Building an octree from its metadata and its binary table.

use crate::arith::{computes, total, vec_difference, Arith, Op, Vec3};
use crate::collision::octree::{GridSize, VoxelCollision};
use crate::single::{single, Single};
use crate::text::{decimal, push_decimal, replace_all, replaced};
use vstd::prelude::*;
use vstd::string::StringExecFns;

verus! {

/// The oldest format version that is understood, 1.1. Earlier files have their
/// X and Y axes negated.
pub const OLDEST_VERSION: u32 = 0x3f8c_cccd;

#[derive(Clone, Copy, Debug, PartialEq, Eq, Structural)]
pub struct Bounds {
    pub min: Vec3,
    pub max: Vec3,
}

/// What the metadata file of a voxel scene says.
#[derive(Debug)]
pub struct VoxelMetadata {
    pub version: String,
    pub grid_bounds: Bounds,
    pub voxel_resolution: Single,
    pub leaf_size: u32,
    pub tree_depth: u32,
    pub node_count: u32,
    pub leaf_data_count: u32,
}

/// Why a voxel scene is rejected.
#[derive(Debug)]
pub enum LoadError {
    /// The format version, as written in the file, is too old.
    Version(String),
    /// The binary table is shorter than the metadata says.
    Truncated { expected: u64, got: u64 },
}

impl LoadError {
    /// The text shown to the user.
    pub open spec fn text(self) -> Seq<char> {
        match self {
            LoadError::Version(version) => "voxel format v"@ + version@
                + " not supported (need v1.1+, X/Y flip not handled)"@,
            LoadError::Truncated { expected, got } => "voxel binary truncated: expected "@
                + decimal(expected as nat) + " bytes, got "@ + decimal(got as nat),
        }
    }

    pub fn message(&self) -> (r: String)
        ensures
            r@ == self.text(),
    {
        match self {
            LoadError::Version(version) => {
                let mut out: String = String::from_str("voxel format v");
                out.append(version.as_str());
                out.append(" not supported (need v1.1+, X/Y flip not handled)");
                out
            },
            LoadError::Truncated { expected, got } => {
                let mut out: String = String::from_str("voxel binary truncated: expected ");
                push_decimal(&mut out, *expected);
                out.append(" bytes, got ");
                push_decimal(&mut out, *got);
                out
            },
        }
    }
}

/// The path of the binary table that belongs to a metadata file.
pub fn binary_path(json_path: &str) -> (r: String)
    ensures
        r@ == replaced(json_path@, ".voxel.json"@, ".voxel.bin"@),
{
    proof {
        reveal_strlit(".voxel.json");
    }
    replace_all(json_path, ".voxel.json", ".voxel.bin")
}

/// Reject scenes in a format that is too old. `version` is the number that the
/// version text holds, if it holds one; a scene without one passes.
pub fn check_version(meta: &VoxelMetadata, version: Option<Single>) -> (r: Result<(), LoadError>)
    ensures
        version.is_some() && version.unwrap().below(single(OLDEST_VERSION)) ==> (r matches Err(
            LoadError::Version(text),
        ) && text@ == meta.version@),
        !(version.is_some() && version.unwrap().below(single(OLDEST_VERSION))) ==> r.is_ok(),
{
    let number: Single = match version {
        Some(number) => number,
        None => single(OLDEST_VERSION),
    };
    if number.lt(single(OLDEST_VERSION)) {
        Err(LoadError::Version(meta.version.clone()))
    } else {
        Ok(())
    }
}

/// Word `i` of a table of little-endian words.
pub open spec fn word_at(bytes: Seq<u8>, i: int) -> u32 {
    (bytes[4 * i] + bytes[4 * i + 1] * 0x100 + bytes[4 * i + 2] * 0x1_0000 + bytes[4 * i + 3]
        * 0x100_0000) as u32
}

/// `count` words of the table from word `start` on.
pub open spec fn words_at(bytes: Seq<u8>, start: int, count: nat) -> Seq<u32> {
    Seq::new(count, |i: int| word_at(bytes, start + i))
}

/// Number of bytes that the metadata asks of the binary table.
pub open spec fn expected_bytes(meta: VoxelMetadata) -> int {
    (meta.node_count + meta.leaf_data_count) * 4
}

/// The number of voxels that fit in an extent, to the nearest.
pub open spec fn voxel_count(g: Arith, extent: Single, resolution: Single) -> int {
    g(Op::Round(g(Op::Div(extent, resolution)))).truncated(0, u32::MAX as int)
}

fn count_voxels<F: Fn(Op) -> Single>(f: &F, extent: Single, resolution: Single) -> (r: u32)
    requires
        total(*f),
    ensures
        forall|g: Arith| #[trigger] computes(*f, g) ==> r == voxel_count(g, extent, resolution),
{
    let quotient: Single = f(Op::Div(extent, resolution));
    let rounded: Single = f(Op::Round(quotient));
    rounded.truncate(0, 0xffff_ffff) as u32
}

fn read_words(bytes: &[u8], start: usize, count: usize) -> (r: Vec<u32>)
    requires
        (start + count) * 4 <= bytes@.len(),
    ensures
        r@ == words_at(bytes@, start as int, count as nat),
{
    let len: usize = bytes.len();
    let mut words: Vec<u32> = Vec::new();
    let mut i: usize = 0;
    while i < count
        invariant
            i <= count,
            (start + count) * 4 <= bytes@.len(),
            len == bytes@.len(),
            words@ == words_at(bytes@, start as int, i as nat),
        decreases count - i,
    {
        let at: usize = (start + i) * 4;
        let word: u32 = bytes[at] as u32 + bytes[at + 1] as u32 * 0x100 + bytes[at + 2] as u32
            * 0x1_0000 + bytes[at + 3] as u32 * 0x100_0000;
        words.push(word);
        i = i + 1;
        assert(words@ =~= words_at(bytes@, start as int, i as nat));
    }
    words
}

impl VoxelCollision {
    /// Take the node and leaf tables out of the binary, which may be longer
    /// than needed but not shorter, and lay the grid over the bounds.
    pub fn decode<F: Fn(Op) -> Single>(meta: &VoxelMetadata, bytes: &[u8], f: &F) -> (r: Result<
        VoxelCollision,
        LoadError,
    >)
        requires
            total(*f),
        ensures
            bytes@.len() < expected_bytes(*meta) ==> (r matches Err(
                LoadError::Truncated { expected, got },
            ) && expected == expected_bytes(*meta) && got == bytes@.len()),
            bytes@.len() >= expected_bytes(*meta) ==> r.is_ok(),
            r matches Ok(scene) ==> {
                &&& scene.grid_min == meta.grid_bounds.min
                &&& scene.voxel_resolution == meta.voxel_resolution
                &&& scene.leaf_size == meta.leaf_size
                &&& scene.tree_depth == meta.tree_depth
                &&& scene.nodes@ == words_at(bytes@, 0, meta.node_count as nat)
                &&& scene.leaf_data@ == words_at(
                    bytes@,
                    meta.node_count as int,
                    meta.leaf_data_count as nat,
                )
            },
            forall|g: Arith| #[trigger]
                computes(*f, g) ==> (r matches Ok(scene) ==> {
                    let span = vec_difference(g, meta.grid_bounds.max, meta.grid_bounds.min);
                    &&& scene.num_voxels.x == voxel_count(g, span.x, meta.voxel_resolution)
                    &&& scene.num_voxels.y == voxel_count(g, span.y, meta.voxel_resolution)
                    &&& scene.num_voxels.z == voxel_count(g, span.z, meta.voxel_resolution)
                }),
    {
        let expected: u64 = (meta.node_count as u64 + meta.leaf_data_count as u64) * 4;
        let got: u64 = bytes.len() as u64;
        if got < expected {
            return Err(LoadError::Truncated { expected, got });
        }
        let nodes: Vec<u32> = read_words(bytes, 0, meta.node_count as usize);
        let leaf_data: Vec<u32> = read_words(
            bytes,
            meta.node_count as usize,
            meta.leaf_data_count as usize,
        );
        let resolution: Single = meta.voxel_resolution;
        let span: Vec3 = meta.grid_bounds.max.minus(f, meta.grid_bounds.min);
        let num_voxels: GridSize = GridSize {
            x: count_voxels(f, span.x, resolution),
            y: count_voxels(f, span.y, resolution),
            z: count_voxels(f, span.z, resolution),
        };
        Ok(
            VoxelCollision {
                grid_min: meta.grid_bounds.min,
                num_voxels,
                voxel_resolution: resolution,
                leaf_size: meta.leaf_size,
                tree_depth: meta.tree_depth,
                nodes,
                leaf_data,
            },
        )
    }
}

} // verus!
