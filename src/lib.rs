//! A small CPU rendering pipeline over exact integer arithmetic.
//!
//! Coordinates are integers in a unit of the caller's choice (the demo world
//! uses thousandths). Matrices carry a shared denominator, so translations
//! compose exactly with fixed-point rotations. A pinhole camera clips each
//! triangle to its depth range, projects it and fills it into an RGBA8 frame
//! in scene order.
pub mod arith;
pub mod matrix;
pub mod geometry;
pub mod rotation;
pub mod scene;
pub mod clip;
pub mod camera;
pub mod world;
