//! A software rasterizer in fixed-point integer arithmetic: perspective
//! projection, Bresenham lines with blended colors, edge-function triangle
//! fill with a depth buffer, and per-object vertex transforms.

use vstd::prelude::*;

pub mod color;
pub mod control;
pub mod geometry;
pub mod line;
pub mod raster;
pub mod scene;
pub mod transform;
pub mod wire;

verus! {

} // verus!
