//! Entity-component storage, asset bookkeeping and the integer-level parts of
//! the renderer (bitmap decoding, instance batching, screenshot layout).
pub mod asset_managment;
pub mod bmp;
pub mod components;
pub mod ecs;
pub mod rendering;
pub mod structures;
pub mod swizzle;
pub mod vecmap;

use vstd::prelude::*;

verus! {

/// Items shared with the callbacks of the main loop; it has no fields yet.
pub struct StateItems {}

} // verus!
