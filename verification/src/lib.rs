//! A software rendering pipeline on integers.
//!
//! Positions, matrices, weights and noise are fixed-point numbers with sixteen
//! fractional bits; depths and colour channels have fixed-point scales of
//! their own. Every operation rounds down and, where its result could leave
//! 32 bits, saturates, so that its result is stated exactly.
//!
//! - `fixed`: the fixed-point arithmetic the rest is built from.
//! - `vector`, `matrix`: vectors, 4x4 matrices, and the model, view and
//!   projection matrices.
//! - `projection`: from clip space to pixels, with the rejection of points
//!   behind the eye.
//! - `framebuffer`: the colour buffer and the depth buffer.
//! - `geometry`, `render`, `line`: edge functions, triangle fill with
//!   barycentric interpolation and depth test, line drawing, and the drawing
//!   of shaded meshes.
//! - `skybox`: the starfield backdrop.
//! - `shaders`: colours, the interface of a shader, and interpolation
//!   helpers.
//! - `noise`: lattice noise, fractal sums, and cell noise.
//! - `planets`: the names of the shadings of the scene.
//! - `obj_loader`: face corners, the cutting of polygons into triangles, and
//!   vertex normals.

pub mod fixed;
pub mod framebuffer;
pub mod geometry;
pub mod line;
pub mod matrix;
pub mod noise;
pub mod obj_loader;
pub mod planets;
pub mod projection;
pub mod render;
pub mod shaders;
pub mod skybox;
pub mod vector;
