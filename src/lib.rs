//! A small framework for pixel-buffer visualizations: a canvas that maps a
//! logical drawing grid onto a packed RGBA frame buffer, the configuration of
//! a world, the input state a world reads, and the contract a world follows.

pub mod bouncing_box;
pub mod canvas;
pub mod input;
pub mod laws;
pub mod world;

pub use canvas::{Canvas, CanvasError, CoordinateSystem, Geometry, Rgba};
pub use input::InputState;
pub use world::{World, WorldConfig};
