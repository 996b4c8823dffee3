//! Plain-value snapshots of the read-only map and simulation collaborators.
//! Layers copy exactly the fields they need out of these records at
//! construction time and never retain references into them, so the sources
//! may mutate or advance after a build.

use crate::classify::{
    bike_len_total, distinct_int_ids, distinct_road_ids, mode_total, spec_int_known,
    spec_road_known, IntersectionRec, LaneRec, RoadRec, ThruputEvent, TripMode,
};
use crate::color::{Color, Gradient};
use crate::geometry::{Pt, Segment};
use vstd::prelude::*;

verus! {

/// A building copied out of the map: its vertex loop, the optional walkway
/// to the nearest road, its source-map identity and tags, and its amenities
/// already resolved to category indices (an uncategorized amenity is
/// `None`).
#[derive(Clone, Debug)]
pub struct BuildingRec {
    pub id: u64,
    pub points: Vec<Pt>,
    pub front_path: Option<Segment>,
    pub osm_way_id: u64,
    pub osm_tags: Vec<String>,
    pub amenities: Vec<Option<usize>>,
}

/// The current map edits, as enumerable key lists.
#[derive(Clone, Debug)]
pub struct EditsRec {
    pub edits_name: String,
    pub original_lts: Vec<u64>,
    pub reversed_lanes: Vec<u64>,
    pub changed_speed_limits: Vec<u64>,
    pub original_intersections: Vec<u64>,
}

/// Everything the layers read from the map.
#[derive(Clone, Debug)]
pub struct MapSnapshot {
    pub lanes: Vec<LaneRec>,
    pub roads: Vec<RoadRec>,
    pub intersections: Vec<IntersectionRec>,
    pub bus_stops: Vec<u64>,
    pub buildings: Vec<BuildingRec>,
    pub edits: EditsRec,
}

/// Everything the layers read from the simulation: the clock, and the
/// cumulative throughput counters.
#[derive(Clone, Debug)]
pub struct Analytics {
    pub time: u64,
    pub road_thruput: Vec<ThruputEvent>,
    pub intersection_thruput: Vec<ThruputEvent>,
}

/// The color-scheme configuration, passed explicitly into every
/// construction call.
#[derive(Clone, Copy, Debug, PartialEq, Eq, Structural, Hash)]
pub struct ColorConfig {
    pub good_to_bad_green: Gradient,
    pub good_to_bad_red: Gradient,
    pub bus_layer: Color,
    pub edits_layer: Color,
    pub pedestrian: Color,
    pub pedestrian_preparing_bike: Color,
    pub blinker_on: Color,
}

/// Display options the draw path reads.
#[derive(Clone, Copy, Debug, PartialEq, Eq, Structural, Hash)]
pub struct Options {
    pub min_zoom_for_detail: u64,
}

/// The application state a layer is built from or polled against.
#[derive(Clone, Debug)]
pub struct AppSnapshot {
    pub map: MapSnapshot,
    pub analytics: Analytics,
    pub cs: ColorConfig,
    pub opts: Options,
}

/// Well-formed map data: entity ids are unambiguous and the biking-lane
/// length sum fits the accumulator.
pub open spec fn map_wf(m: MapSnapshot) -> bool {
    &&& distinct_road_ids(m.roads@)
    &&& distinct_int_ids(m.intersections@)
    &&& bike_len_total(m.lanes@) <= u64::MAX
}

/// Well-formed analytics for this map: every bike observation refers to a
/// known road or intersection, and no key's cumulative count overflows.
pub open spec fn analytics_wf(m: MapSnapshot, a: Analytics) -> bool {
    &&& forall|i: int|
        0 <= i < a.road_thruput@.len() && (#[trigger] a.road_thruput@[i]).mode == TripMode::Bike
            ==> spec_road_known(m.roads@, a.road_thruput@[i].key)
    &&& forall|i: int|
        0 <= i < a.intersection_thruput@.len() && (#[trigger] a.intersection_thruput@[i]).mode
            == TripMode::Bike ==> spec_int_known(m.intersections@, a.intersection_thruput@[i].key)
    &&& forall|k: u64| mode_total(a.road_thruput@, TripMode::Bike, k) <= u64::MAX
    &&& forall|k: u64| mode_total(a.intersection_thruput@, TripMode::Bike, k) <= u64::MAX
}

/// A well-formed application snapshot.
pub open spec fn app_wf(app: AppSnapshot) -> bool {
    &&& map_wf(app.map)
    &&& analytics_wf(app.map, app.analytics)
}

} // verus!
