//! Voxel-octree collision queries: point and ray queries against a sparse set
//! of solid voxels, and capsule push-out.

pub mod octree;
pub mod load;
pub mod passage;
pub mod ray;
pub mod capsule;
pub mod contact;
pub mod cover;
pub mod laws;
