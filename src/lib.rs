//! A small ray-tracing kernel over integer geometry.
//!
//! Scene coordinates are integers on a fixed grid, so every intersection
//! test, nearest-hit decision and pixel colour is computed without rounding
//! surprises (square roots are rounded down) and proved against the spec
//! functions of its module:
//! - `math`: vectors, rays and the integer square root;
//! - `scene`: transforms, spheres, hits, entities and nearest-hit resolution;
//! - `camera`: uv mapping, primary rays, multisampling and rendering;
//! - `rendering`: colours, materials, render options and the sample accumulator;
//! - `framebuffer`: the render target contract and an in-memory buffer.
pub mod camera;
pub mod framebuffer;
pub mod math;
pub mod rendering;
pub mod scene;
