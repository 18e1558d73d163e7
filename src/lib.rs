// A cost grid with paths traced over it, and the integer side of viewing it: which cells
// and path segments a viewport must redraw, whether that fits the frame's budget, which
// object lies under the cursor, and how the grid and its paths are read and painted.
use vstd::prelude::*;

pub mod field;
pub mod hit;
pub mod image;
pub mod input;
pub mod number;
pub mod scanner;
pub mod scene;
pub mod snake;
pub mod visible;

verus! {

} // verus!
