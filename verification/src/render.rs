//! The renderable-entity capability set: stable identities, draw commands,
//! outlines and z-order for the heterogeneous per-frame entities the
//! compositor sorts and draws.

pub mod building;
pub mod pedestrian;

use crate::color::Color;
use crate::geometry::{Circle, Polygon, Segment};
use vstd::prelude::*;

verus! {

/// The opaque, stable identity of a renderable entity, scoped to its kind.
#[derive(Clone, Copy, Debug, PartialEq, Eq, Structural, Hash)]
pub enum ID {
    Building(u64),
    Pedestrian(u64),
    Road(u64),
    Intersection(u64),
    Lane(u64),
    BusStop(u64),
}

/// One primitive draw call against the frame's graphics context. The host
/// executes these in order.
#[derive(Clone, Debug, PartialEq)]
pub enum DrawCommand {
    Line { seg: Segment, color: Color, width: u64 },
    FillPolygon { poly: Polygon, color: Color },
    FillCircle { circle: Circle, color: Color },
}

} // verus!
