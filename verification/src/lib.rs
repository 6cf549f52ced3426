//! Core runtime for spatially-addressed LED installations: a layout compiler
//! that turns a textual description of connected line segments into an indexed
//! point cloud, a spatial query engine over those points, keyed scratch storage
//! for effect state, a phase-based effect driver, and fixed-rate pacing
//! arithmetic for the frame loop.
//!
//! Coordinates are fixed-point: [`geometry::SCALE`] sub-units per spatial unit.
pub mod buffer;
pub mod clock;
pub mod driver;
pub mod geometry;
pub mod index;
pub mod layout;
pub mod scheduler;
