//! Verified core of an audio spectrum visualizer.
//!
//! The library turns raw sample buffers into stabilized, perceptually shaped
//! frequency-magnitude sequences ("spectrum bars"). All signal values are
//! carried as fixed-point integers (see [`fixed`]), so every stage of the
//! pipeline is ordinary integer arithmetic with proved contracts.

pub mod audio;
pub mod bridge;
pub mod config;
pub mod fixed;
pub mod frame;
pub mod pipeline;
pub mod reducer;
pub mod shaper;
pub mod stabilizer;
pub mod transform;
