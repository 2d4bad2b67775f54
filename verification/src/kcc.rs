//! The capsule move-and-slide character controller. The controller itself
//! holds no state; its motion solving is floating-point geometry, which the
//! library does not hold, so only the controller value lives here.
use vstd::prelude::*;

verus! {

/// A capsule move-and-slide controller (stateless).
#[derive(Default)]
pub struct SlideController;

impl SlideController {
    /// The controller.
    pub fn new() -> (r: Self)
        ensures
            r == SlideController,
    {
        SlideController
    }
}

} // verus!
