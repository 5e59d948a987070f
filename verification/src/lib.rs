//! Tile partitioning, tile commit and worker-pool scheduling for a tiled
//! escape-time fractal renderer, with machine-checked contracts.

pub mod math;
pub mod tile;
pub mod framebuffer;
pub mod config;
pub mod coordinator;
pub mod palette;
pub mod progress;
pub mod image;
