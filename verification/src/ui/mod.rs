//! The state behind the user interface.

pub mod camera_settings;
pub mod error_display;
pub mod laws;
pub mod mode;
pub mod pose;
pub mod scene;
pub mod tree;
pub mod update_mode;
pub mod viewport;
pub mod visibility;
