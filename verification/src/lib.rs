//! A CPU-only rasterizer for indexed triangle meshes.
//!
//! The crate covers the part of a small mesh viewer that can be reasoned about
//! exactly: the line grammar of the mesh text format, the mesh itself, a
//! packed-colour pixel buffer with its byte and image forms, and the integer
//! rasterizer (solid fill, Bresenham wireframe, optional back-face culling).
//! Every executable function carries a contract over a mathematical model of its
//! data, and the laws that relate them are stated and proved beside them.
//!
//! Coordinates in model space are floating-point numbers and stay with the caller:
//! the library hands out the text of each coordinate and takes screen points back.

pub mod color;
pub mod framebuffer;
pub mod geometria;
pub mod imagen;
pub mod malla;
pub mod obj;
pub mod raster;
