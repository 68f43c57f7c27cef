//! Frame transform builder: the per-frame matrix pipeline of a small
//! renderer, computed over exact fixed-point scalars.
//!
//! The crate advances a set of animation angles, builds axis rotation
//! matrices from cosine/sine pairs, a perspective projection, and a
//! look-at view matrix, and composes them by matrix multiplication.
//! All scalars are `i64` fixed-point values (see [`fixed::SCALE`]);
//! trigonometric evaluation happens outside, and the functions here
//! take the resulting cosine/sine pairs as plain scalars.

pub mod animation;
pub mod camera;
pub mod fixed;
pub mod matrix;
pub mod projection;
pub mod rotation;
