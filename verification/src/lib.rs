//! A CPU-only 2D software rasterizer: packed 8-bit RGBA pixels, a set of
//! compositing (blend) modes, primitive drawing (lines, rectangles, circles,
//! triangles, Bezier curves), affine sprite blitting, and a partitioned
//! wrapper that splits the framebuffer into independent tiles sized to the
//! machine's core count.

pub mod color;
pub mod font;
pub mod laws;
pub mod partitioned_rasterizer;
pub mod png;
pub mod primitives;
pub mod rasterizer;
pub mod transform;
