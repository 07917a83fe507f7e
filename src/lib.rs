//! A software rasterization pipeline on fixed-point integers: vertex
//! transformation, primitive assembly, triangle scan conversion with
//! depth-tested writes, and line drawing into a packed-color frame buffer.
//!
//! Real quantities (positions, normals, depths, matrix entries, blend
//! factors) are fixed-point `i32` values scaled by [`fixed::ONE`]. Screen
//! positions are in fixed-point pixels. A smaller depth is nearer; a cleared
//! pixel holds [`framebuffer::FAR_DEPTH`].

pub mod fixed;
pub mod color;
pub mod framebuffer;
pub mod vertex;
pub mod triangle;
pub mod pipeline;
pub mod trail;
pub mod shaders;
