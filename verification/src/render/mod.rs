//! Gaussian splats: their parameters, the tiles of an image, and rasterizing.

pub mod aux;
pub mod dispatch;
pub mod frame;
pub mod laws;
pub mod light;
pub mod mode;
pub mod pipeline;
pub mod project;
pub mod rasterize;
pub mod splats;
pub mod tiles;
pub mod validate;
