//! Height-field terrain viewer core: a text-format loader, height-based
//! color schemes, wireframe/triangle mesh generation, and an orbital
//! camera.
//!
//! Every fractional quantity (heights, colors, positions, angles, matrix
//! entries) is a decimal fixed-point value: an `i64` counting micro-units,
//! where [`fixed::SCALE`] stands for `1.0`. This keeps the whole pipeline
//! in exact integer arithmetic, so each step carries a precise contract.

pub mod camera;
pub mod colors;
pub mod fixed;
pub mod loader;
pub mod mesh;
pub mod terrain;
pub mod ui;
