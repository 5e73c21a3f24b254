//! The integer-level decisions of the renderer.
pub mod batching;
pub mod screenshot;
