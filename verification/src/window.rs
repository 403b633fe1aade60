//! Screen geometry handed over by the windowing side.
use vstd::prelude::*;

verus! {

/// Width and height of the X screen, in pixels.
pub struct ScreenDimensions {
    pub width: u32,
    pub height: u32,
}

} // verus!
