use vstd::prelude::*;

pub mod clock;
pub mod color;
pub mod font;
pub mod graph;
pub mod grid;
pub mod grid_laws;
pub mod html;
pub mod pacing;
pub mod render;
pub mod text;
pub mod text_laws;
pub mod window;

verus! {

} // verus!
