//! Skinned characters: images, keyframe tracks, skeletons, paths, and the data
//! that goes to the graphics card.

pub mod asset;
pub mod buffers;
pub mod gltf;
pub mod image;
pub mod laws;
pub mod path;
pub mod pose;
pub mod skeleton;
pub mod static_mesh;
pub mod stride;
pub mod tangents;
pub mod track;
