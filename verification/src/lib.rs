//! A grid-based first-person raycasting renderer.
//!
//! The library turns a 2D tile map and a movable camera into a per-column
//! wall projection: for every screen column a ray is traced through the grid
//! (DDA traversal) until it meets a solid cell, the perpendicular wall
//! distance is computed, and a vertical wall slice is rasterized into a flat
//! RGBA pixel buffer.
//!
//! All continuous quantities (camera position, direction, camera plane) are
//! exact fixed-point numbers; see [`fixed`].

use vstd::prelude::*;

pub mod fixed;
pub mod ray;
pub mod renderer;
pub mod ui;

verus! {

/// Integer factor between the design resolution and the logical resolution.
pub const SCALE: usize = 4;

/// Logical width of the output buffer, in pixels.
pub const WIDTH: usize = 1280 / SCALE;

/// Logical height of the output buffer, in pixels.
pub const HEIGHT: usize = 720 / SCALE;

} // verus!
