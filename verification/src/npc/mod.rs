//! Non-player characters: a random timeline of walks and falls for each, and
//! the motion that follows from it.

pub mod brain;
pub mod laws;
pub mod motion;
pub mod rng;
pub mod scene;
pub mod system;
pub mod tick;
pub mod view;
