//! Components the engine itself knows about.
pub mod camera;
