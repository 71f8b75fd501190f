//! A small rendering engine core: thin handle types for OpenGL objects, keyboard
//! key ranges, and a 2D overlay whose windows form a tree laid out in one
//! shared vertex buffer.

pub mod gliw;
pub mod overlay;
pub mod color;
pub mod data;
pub mod event;
pub mod input;
pub mod scene;
pub mod shader_loader;
