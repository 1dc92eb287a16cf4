//! The integer and ordering parts of a ray tracer: the pixel buffer that a render
//! fills, the plain-text image encoding of that buffer, the ordered set of ray
//! intersections with its hit rule, and the per-pixel render loop.
//!
//! The floating-point geometry (tuples, matrices, shapes, lighting) lives with the
//! callers; they hand this library plain values: order keys for ray parameters,
//! byte channels for pixels, and the shading closure for the render loop.
use vstd::prelude::*;

pub mod canvas;
pub mod intersection;
pub mod light;
pub mod ppm;
pub mod render;
pub mod two_dimensional;
pub mod util;
