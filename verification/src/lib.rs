//! A software rendering engine: 2D pixel generators (lines, circles), a path
//! builder, a camera/canvas projection model, a perspective-correct triangle
//! rasterizer with depth buffering, and an alpha compositor, all computing in
//! exact integer and rational arithmetic.

pub mod camera;
pub mod drawing;
pub mod fixed;
pub mod renderer;

use vstd::prelude::*;

verus! {

} // verus!
