use vstd::prelude::*;

use crate::ecs::component::Component;

verus! {

/// Marks the camera the renderer draws the scene from.
#[derive(Debug)]
pub struct MainCamera;

impl Component for MainCamera {
    fn mew() -> Self {
        MainCamera
    }
}

} // verus!
