//! The sparse voxel octree: which voxels of a grid are solid.

use crate::arith::Vec3;
use crate::single::Single;
use vstd::arithmetic::power2::pow2;
use vstd::prelude::*;

verus! {

/// A node that stands for a fully solid subtree. The child mask is full and
/// the child offset is zero, which no interior node has: children come after
/// their parent.
pub const SOLID_LEAF_MARKER: u32 = 0xff00_0000;

/// The low 24 bits of a node hold an offset; the high byte holds a child mask.
pub const OFFSET_SPAN: u32 = 0x0100_0000;

/// The largest number of levels whose octants a 64-bit block index can tell.
pub const MAX_LEVELS: u32 = 64;

/// A query that cannot be answered: the tables do not hold what the octree
/// refers to, or a bound is out of order.
#[derive(Clone, Copy, Debug, PartialEq, Eq, Structural)]
pub struct Fault;

/// Number of voxels along each axis.
#[derive(Clone, Copy, Debug, PartialEq, Eq, Structural)]
pub struct GridSize {
    pub x: u32,
    pub y: u32,
    pub z: u32,
}

/// A voxel index; outside of the grid it may be negative or too large.
#[derive(Clone, Copy, Debug, PartialEq, Eq, Structural)]
pub struct Cell {
    pub x: i64,
    pub y: i64,
    pub z: i64,
}

/// A sparse voxel octree over a grid of cubic voxels.
#[derive(Debug)]
pub struct VoxelCollision {
    /// Corner of the grid with the smallest coordinates.
    pub grid_min: Vec3,
    pub num_voxels: GridSize,
    /// Edge length of a voxel.
    pub voxel_resolution: Single,
    /// Edge length of a leaf block, in voxels.
    pub leaf_size: u32,
    pub tree_depth: u32,
    pub nodes: Vec<u32>,
    /// Two words for each mixed leaf, low word first.
    pub leaf_data: Vec<u32>,
}

impl GridSize {
    pub open spec fn holds(self, cell: Cell) -> bool {
        &&& 0 <= cell.x < self.x
        &&& 0 <= cell.y < self.y
        &&& 0 <= cell.z < self.z
    }
}

/// Bit `k` of a non-negative number.
pub open spec fn bit_at(n: int, k: nat) -> int {
    n / (pow2(k) as int) % 2
}

/// How many of the lowest `n` bits of `mask` are set.
pub open spec fn ones_below(mask: int, n: nat) -> nat
    decreases n,
{
    if n == 0 {
        0
    } else {
        ones_below(mask, (n - 1) as nat) + bit_at(mask, (n - 1) as nat) as nat
    }
}

pub open spec fn child_mask(node: u32) -> int {
    node as int / OFFSET_SPAN as int
}

pub open spec fn node_offset(node: u32) -> int {
    node as int % OFFSET_SPAN as int
}

/// Which of the eight children of a node at the given level holds the block:
/// one bit of each block coordinate, z first.
pub open spec fn octant(x: int, y: int, z: int, level: nat) -> nat {
    (bit_at(z, level) * 4 + bit_at(y, level) * 2 + bit_at(x, level)) as nat
}

/// Position of a voxel in the 64 bits of its 4 by 4 by 4 leaf.
pub open spec fn leaf_bit(cell: Cell) -> int {
    cell.z as int % 4 * 16 + cell.y as int % 4 * 4 + cell.x as int % 4
}

/// What the leaf table says of a voxel, or nothing where the leaf lies
/// outside of the table.
pub open spec fn mixed_leaf(leaf_data: Seq<u32>, node: u32, cell: Cell) -> Option<bool> {
    let first = node_offset(node) * 2;
    if first + 1 < leaf_data.len() {
        let bit = leaf_bit(cell);
        Some(bit_at(leaf_data[first + bit / 32] as int, (bit % 32) as nat) == 1)
    } else {
        None
    }
}

impl VoxelCollision {
    /// The answer for a voxel in the subtree of node `index`, which has
    /// `levels` levels below it. There is none where a table is left, or
    /// where a level has no bit in a block index.
    pub open spec fn subtree(&self, index: int, levels: nat, cell: Cell) -> Option<bool>
        decreases levels,
    {
        if !(0 <= index < self.nodes@.len()) {
            None
        } else {
            let node = self.nodes@[index];
            let size = self.leaf_size as int;
            if node == SOLID_LEAF_MARKER {
                Some(true)
            } else if levels == 0 || child_mask(node) == 0 {
                mixed_leaf(self.leaf_data@, node, cell)
            } else if levels > MAX_LEVELS {
                None
            } else {
                let child = octant(
                    cell.x as int / size,
                    cell.y as int / size,
                    cell.z as int / size,
                    (levels - 1) as nat,
                );
                if bit_at(child_mask(node), child) == 0 {
                    Some(false)
                } else {
                    self.subtree(
                        node_offset(node) + ones_below(child_mask(node), child),
                        (levels - 1) as nat,
                        cell,
                    )
                }
            }
        }
    }

    /// Whether a voxel is solid. Outside of the grid nothing is; inside there
    /// is no answer where the octree refers to something that its tables lack.
    pub open spec fn solid(&self, cell: Cell) -> Option<bool> {
        if self.nodes@.len() == 0 || !self.num_voxels.holds(cell) {
            Some(false)
        } else if self.leaf_size == 0 {
            None
        } else {
            self.subtree(0, self.tree_depth as nat, cell)
        }
    }

    /// Walk the octree from the root to the voxel.
    pub fn is_voxel_solid(&self, cell: Cell) -> (r: Result<bool, Fault>)
        ensures
            match self.solid(cell) {
                Some(solid) => r == Ok::<bool, Fault>(solid),
                None => r == Err::<bool, Fault>(Fault),
            },
    {
        if self.nodes.len() == 0 || cell.x < 0 || cell.y < 0 || cell.z < 0 || cell.x
            >= self.num_voxels.x as i64 || cell.y >= self.num_voxels.y as i64 || cell.z
            >= self.num_voxels.z as i64 {
            return Ok(false);
        }
        if self.leaf_size == 0 {
            return Err(Fault);
        }
        let leaf_size: u64 = self.leaf_size as u64;
        let block_x: u64 = cell.x as u64 / leaf_size;
        let block_y: u64 = cell.y as u64 / leaf_size;
        let block_z: u64 = cell.z as u64 / leaf_size;
        let mut index: usize = 0;
        let mut levels: u32 = self.tree_depth;
        while levels > 0
            invariant
                self.nodes@.len() > 0,
                self.num_voxels.holds(cell),
                self.leaf_size > 0,
                block_x == cell.x as int / self.leaf_size as int,
                block_y == cell.y as int / self.leaf_size as int,
                block_z == cell.z as int / self.leaf_size as int,
                self.solid(cell) == self.subtree(index as int, levels as nat, cell),
            decreases levels,
        {
            if index >= self.nodes.len() {
                return Err(Fault);
            }
            let node: u32 = self.nodes[index];
            if node == SOLID_LEAF_MARKER {
                return Ok(true);
            }
            let mask: u32 = node / OFFSET_SPAN;
            if mask == 0 {
                return self.check_mixed_leaf(node, cell);
            }
            if levels > MAX_LEVELS {
                return Err(Fault);
            }
            let level: u64 = (levels - 1) as u64;
            proof {
                vstd::bits::lemma_u64_shr_is_div(block_x, level);
                vstd::bits::lemma_u64_shr_is_div(block_y, level);
                vstd::bits::lemma_u64_shr_is_div(block_z, level);
            }
            let bit_x: u32 = ((block_x >> level) % 2) as u32;
            let bit_y: u32 = ((block_y >> level) % 2) as u32;
            let bit_z: u32 = ((block_z >> level) % 2) as u32;
            let child: u32 = bit_z * 4 + bit_y * 2 + bit_x;
            proof {
                vstd::bits::lemma_u32_shr_is_div(mask, child);
            }
            if (mask >> child) % 2 == 0 {
                return Ok(false);
            }
            // Siblings lie side by side, so the child's place among them is the
            // number of children before it.
            let before: u32 = count_ones_below(mask, child);
            index = (node % OFFSET_SPAN) as usize + before as usize;
            levels = levels - 1;
        }
        if index >= self.nodes.len() {
            return Err(Fault);
        }
        let node: u32 = self.nodes[index];
        if node == SOLID_LEAF_MARKER {
            return Ok(true);
        }
        self.check_mixed_leaf(node, cell)
    }

    /// Look a voxel up in the 64-bit block of a mixed leaf.
    pub fn check_mixed_leaf(&self, node: u32, cell: Cell) -> (r: Result<bool, Fault>)
        ensures
            match mixed_leaf(self.leaf_data@, node, cell) {
                Some(solid) => r == Ok::<bool, Fault>(solid),
                None => r == Err::<bool, Fault>(Fault),
            },
    {
        let first: usize = (node % OFFSET_SPAN) as usize * 2;
        if first + 1 >= self.leaf_data.len() {
            return Err(Fault);
        }
        let bit: u32 = within_leaf(cell.z) * 16 + within_leaf(cell.y) * 4 + within_leaf(cell.x);
        let low: u32 = self.leaf_data[first];
        let high: u32 = self.leaf_data[first + 1];
        proof {
            vstd::bits::lemma_u32_shr_is_div(low, (bit % 32) as u32);
            vstd::bits::lemma_u32_shr_is_div(high, (bit % 32) as u32);
        }
        if bit < 32 {
            Ok((low >> bit) % 2 == 1)
        } else {
            Ok((high >> (bit - 32)) % 2 == 1)
        }
    }
}

/// The place of a voxel in its leaf along one axis: the low two bits of its
/// index.
fn within_leaf(index: i64) -> (r: u32)
    ensures
        r == index as int % 4,
{
    assert(0 <= index & 3 && index & 3 < 4 && (index - (index & 3)) % 4 == 0) by (bit_vector);
    (index & 3) as u32
}

/// The number of set bits of `mask` below bit `n`.
fn count_ones_below(mask: u32, n: u32) -> (r: u32)
    requires
        n <= 32,
    ensures
        r == ones_below(mask as int, n as nat),
        r <= n,
{
    let mut count: u32 = 0;
    let mut k: u32 = 0;
    while k < n
        invariant
            k <= n <= 32,
            count == ones_below(mask as int, k as nat),
            count <= k,
        decreases n - k,
    {
        proof {
            vstd::bits::lemma_u32_shr_is_div(mask, k);
        }
        count = count + (mask >> k) % 2;
        k = k + 1;
    }
    count
}

} // verus!
