//! A software rasterizer with programmable shading, in exact integer arithmetic.
//!
//! Meshes are drawn triangle by triangle into an RGBA image and a depth buffer:
//! a shader's vertex stage gives each corner a clip-space position, the
//! rasterizer scans the triangle's bounding box, tests coverage with exact
//! barycentric weights, tests depth, and asks the shader's fragment stage for a
//! color, handing it perspective-correct weights. Textures are sampled nearest,
//! bilinearly, through a mipmap chain, a summed-area table, anisotropically, or
//! as a cube map.
//!
//! Units: colors are 8-bit; clip-space positions are integers whose quotient by
//! `w` is the normalized-device coordinate; screen depth is in units of
//! `1 / DEPTH_ONE`; texture coordinates and interpolation fractions in units of
//! `1 / 65536`.
//!
//! `laws` states and proves what holds across calls: barycentric weights
//! partition unity, perspective-correct interpolation recovers world-space
//! weights, depth testing is independent of drawing order, rendering holds no
//! state, and a summed-area table's four lookups give any rectangle's sum;
//! `mipmap::lemma_mipmap_pyramid` proves that a mipmap chain halves down to one
//! texel in `ceil(log2)` steps.

pub mod font;
pub mod geometry;
pub mod image;
pub mod image_decoder;
pub mod image_encoder;
pub mod laws;
pub mod mat;
pub mod mipmap;
pub mod model;
pub mod pipeline;
pub mod raster;
pub mod sat;
pub mod shaders;
pub mod shape;
pub mod texture;
pub mod util;
