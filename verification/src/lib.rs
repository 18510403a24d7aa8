//! Per-key RGB backlight simulation for an addressable LED grid.
//!
//! A sparse grid layout maps (row, column) positions to physical LED
//! indices; a tick-based simulation moves entities across the grid,
//! detects collisions and turns them into timed explosion effects; a
//! compositor derives a desired color for every present cell; and an
//! incremental synchronizer issues a hardware write only for cells whose
//! desired color differs from the last confirmed one.

pub mod color;
pub mod entity;
pub mod explosion;
pub mod grid;
pub mod led;
pub mod player;
pub mod render;
pub mod sim;
