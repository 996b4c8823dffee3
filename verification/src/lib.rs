//! Verified core of a map-overlay renderer: geometry primitives with
//! hit-testing, renderable entities (buildings, pedestrians), an analytics
//! aggregation pipeline that bins per-entity counters into ranked color
//! tiers, and layer lifecycle objects that cache the resulting render
//! batches and rebuild them only when the simulation clock advances.
//!
//! All coordinates are integers (fixed-point world units, roughly
//! centimeters); the host application converts to and from its own
//! floating-point screen space at the boundary.

pub mod classify;
pub mod color;
pub mod counter;
pub mod geometry;
pub mod layer;
pub mod overlay;
pub mod ranking;
pub mod render;
pub mod text;
pub mod world;
