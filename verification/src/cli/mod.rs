//! The command line: arguments, progress, and rendering a single image.

pub mod args;
pub mod camera;
pub mod duration;
pub mod laws;
pub mod progress;
pub mod render;
