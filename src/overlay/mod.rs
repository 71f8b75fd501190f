//! A 2D overlay: a tree of rectangular windows drawn after the scene.
//!
//! Windows live in a flat arena and are known by their index. Each window
//! occupies one quad (four vertices) of a shared vertex buffer, and the quads of
//! a window's descendants follow its own in pre-order.

pub mod arena;
pub mod geometry;
