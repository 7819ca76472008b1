//! The platform-independent core of a small wgpu/winit game engine: texture
//! atlas layout, glyph rasterisation into RGBA buffers, the command queue that
//! input handlers fill, the window table that executes those commands, the
//! child lists of render layers and the surface-size bookkeeping of the
//! renderer.

pub mod common;
pub mod atlas;
pub mod commands;
pub mod engine;
pub mod colour;
pub mod glyph;
pub mod text;
pub mod children;
pub mod surface;
pub mod demo;
pub mod events;
