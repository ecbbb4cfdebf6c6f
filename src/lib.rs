//! Draw-call batching, descriptor bookkeeping and resource tables for a
//! forward renderer with cascaded shadow maps.
//!
//! GPU objects (buffers, image views, samplers, descriptor sets) appear here
//! as raw handles; the code that talks to the graphics device lives outside
//! this crate and carries out the plans computed here.

pub mod buffer;
pub mod camera;
pub mod error;
pub mod frame;
pub mod jpeg;
pub mod renderer;
pub mod resource;
pub mod shader;
pub mod target;
pub mod uniform;
