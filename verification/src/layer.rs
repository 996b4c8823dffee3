//! Layer lifecycle: toggleable aggregate overlays with a cached
//! visualization and a legend panel.
//!
//! A dynamic layer caches the simulation time it was built at and, on every
//! polled event, compares it against the live clock: on a mismatch it
//! discards its batches and rebuilds them wholesale from the live counters;
//! on a match it reuses them untouched. A static layer is built exactly
//! once from immutable map data and never rebuilds.

use crate::classify::{
    classify_intersection_throughput, classify_road_throughput, has_mode_event, mode_total,
    seed_bike_lanes, spec_connected_on, spec_is_bike_parent, spec_is_bike_src, spec_road_has_bike,
    bike_lane_count, bike_len_total, TripMode,
};
use crate::color::Color;
use crate::counter::Counter;
use crate::overlay::{
    spec_cat_color, spec_ranked_intersection_fills, spec_ranked_road_fills, Batch, ColorDiscrete,
    ColorNetwork, Detail, EntityRef,
};
use crate::text::{counted_line, spec_decimal, u64_to_string};
use crate::world::{app_wf, AppSnapshot};
use vstd::prelude::*;
use vstd::string::StringExecFns;

verus! {

/// How many color tiers a ranked network overlay uses.
pub const NUM_TIERS: usize = 3;

/// The legend panel of a layer: a title, free text lines, and labeled
/// colors.
#[derive(Clone, Debug, PartialEq)]
pub struct Panel {
    pub title: String,
    pub lines: Vec<String>,
    pub legend: Vec<(String, Color)>,
}

/// The UI events a layer's panel reacts to.
#[derive(Clone, Copy, Debug, PartialEq, Eq, Structural, Hash)]
pub enum UiEvent {
    Idle,
    ClosePressed,
}

/// The signal a layer hands back to its host.
#[derive(Clone, Copy, Debug, PartialEq, Eq, Structural, Hash)]
pub enum LayerOutcome {
    Close,
}

/// The panel reaction shared by every layer: report a close request,
/// nothing else.
pub open spec fn spec_simple_event(ev: UiEvent) -> Option<LayerOutcome> {
    if ev == UiEvent::ClosePressed {
        Some(LayerOutcome::Close)
    } else {
        None
    }
}

/// Forward one UI event to a layer's panel.
pub fn simple_event(ev: UiEvent) -> (r: Option<LayerOutcome>)
    ensures
        r == spec_simple_event(ev),
{
    if ev == UiEvent::ClosePressed {
        Some(LayerOutcome::Close)
    } else {
        None
    }
}

/// The four counters of the bike-network classification, characterized
/// per key against the snapshot they were computed from. The road pass
/// fills `on`/`off`; the intersection pass reads presence in `on` (so it
/// must run second) and fills `ion`/`ioff`.
pub open spec fn bike_counters_ok(
    app: AppSnapshot,
    on: Counter,
    off: Counter,
    ion: Counter,
    ioff: Counter,
) -> bool {
    &&& on.wf() && off.wf() && ion.wf() && ioff.wf()
    &&& forall|k: u64|
        on.spec_get(k) == if spec_road_has_bike(app.map.roads@, k) {
            mode_total(app.analytics.road_thruput@, TripMode::Bike, k)
        } else {
            0
        }
    &&& forall|k: u64|
        on.spec_has_key(k) == (spec_is_bike_parent(app.map.lanes@, k) || (spec_road_has_bike(
            app.map.roads@,
            k,
        ) && has_mode_event(app.analytics.road_thruput@, TripMode::Bike, k)))
    &&& forall|k: u64|
        off.spec_get(k) == if spec_road_has_bike(app.map.roads@, k) {
            0
        } else {
            mode_total(app.analytics.road_thruput@, TripMode::Bike, k)
        }
    &&& forall|k: u64|
        off.spec_has_key(k) == (!spec_road_has_bike(app.map.roads@, k) && has_mode_event(
            app.analytics.road_thruput@,
            TripMode::Bike,
            k,
        ))
    &&& forall|k: u64|
        ion.spec_get(k) == if spec_connected_on(app.map.intersections@, on, k) {
            mode_total(app.analytics.intersection_thruput@, TripMode::Bike, k)
        } else {
            0
        }
    &&& forall|k: u64|
        ion.spec_has_key(k) == (spec_is_bike_src(app.map.lanes@, k) || (spec_connected_on(
            app.map.intersections@,
            on,
            k,
        ) && has_mode_event(app.analytics.intersection_thruput@, TripMode::Bike, k)))
    &&& forall|k: u64|
        ioff.spec_get(k) == if spec_connected_on(app.map.intersections@, on, k) {
            0
        } else {
            mode_total(app.analytics.intersection_thruput@, TripMode::Bike, k)
        }
    &&& forall|k: u64|
        ioff.spec_has_key(k) == (!spec_connected_on(app.map.intersections@, on, k)
            && has_mode_event(app.analytics.intersection_thruput@, TripMode::Bike, k))
}

/// The fill list of a bike-network overlay: the four counters ranked into
/// gradient tiers and concatenated, roads before intersections, "on"
/// before "off".
pub open spec fn is_bike_overlay(app: AppSnapshot, fills: Seq<(crate::overlay::EntityRef, Color)>) -> bool {
    exists|on: Counter, off: Counter, ion: Counter, ioff: Counter|
        #[trigger] bike_counters_ok(app, on, off, ion, ioff) && fills == spec_ranked_road_fills(
            on,
            app.cs.good_to_bad_green,
            NUM_TIERS as int,
        ) + spec_ranked_road_fills(off, app.cs.good_to_bad_red, NUM_TIERS as int)
            + spec_ranked_intersection_fills(ion, app.cs.good_to_bad_green, NUM_TIERS as int)
            + spec_ranked_intersection_fills(ioff, app.cs.good_to_bad_red, NUM_TIERS as int)
}

/// The legend panel of a freshly built bike-network layer.
pub open spec fn bike_panel_ok(app: AppSnapshot, p: Panel) -> bool {
    &&& p.title@ == "Bike network"@
    &&& p.lines@.len() == 2
    &&& p.lines@[0]@ == spec_decimal(bike_lane_count(app.map.lanes@)) + " lanes"@
    &&& p.lines@[1]@ == "total distance of "@ + spec_decimal(bike_len_total(app.map.lanes@))
    &&& p.legend@.len() == 4
    &&& p.legend@[0].0@ == "Throughput on bike lanes: lowest count"@
    &&& p.legend@[0].1 == app.cs.good_to_bad_green.low
    &&& p.legend@[1].0@ == "Throughput on bike lanes: highest"@
    &&& p.legend@[1].1 == app.cs.good_to_bad_green.high
    &&& p.legend@[2].0@ == "Throughput on unprotected roads: lowest count"@
    &&& p.legend@[2].1 == app.cs.good_to_bad_red.low
    &&& p.legend@[3].0@ == "Throughput on unprotected roads: highest"@
    &&& p.legend@[3].1 == app.cs.good_to_bad_red.high
}

/// Everything `BikeNetwork::new` promises of a freshly built layer.
pub open spec fn is_fresh_bike_network(app: AppSnapshot, l: BikeNetwork) -> bool {
    &&& l.time == app.analytics.time
    &&& l.unzoomed.detail == Detail::Coarse
    &&& l.zoomed.detail == Detail::Fine
    &&& l.zoomed.fills@ == l.unzoomed.fills@
    &&& is_bike_overlay(app, l.unzoomed.fills@)
    &&& bike_panel_ok(app, l.composite)
}

/// The dynamic bike-network layer: cached batches keyed by the simulation
/// time they were built at.
#[derive(Clone, Debug, PartialEq)]
pub struct BikeNetwork {
    pub composite: Panel,
    pub time: u64,
    pub unzoomed: Batch,
    pub zoomed: Batch,
}

impl BikeNetwork {
    /// Build the overlay from the live counters: pre-seed the bike lanes,
    /// run the two classification passes in their required order, rank the
    /// four counters, and upload the two batches.
    pub fn new(app: &AppSnapshot) -> (r: BikeNetwork)
        requires
            app_wf(*app),
        ensures
            is_fresh_bike_network(*app, r),
    {
        let mut on = Counter::new();
        let mut off = Counter::new();
        let mut ints_on = Counter::new();
        let mut ints_off = Counter::new();

        // Make sure all bike lanes show up no matter what.
        let (num_lanes, total_dist) = seed_bike_lanes(&app.map.lanes, &mut on, &mut ints_on);

        // Show throughput, broken down by bike lanes or not.
        classify_road_throughput(
            &app.analytics.road_thruput,
            &app.map.roads,
            TripMode::Bike,
            &mut on,
            &mut off,
        );

        // Use intersection data too, binned as on bike lanes or not based
        // on the already-classified connecting roads. This pass must run
        // after the road pass: it reads presence in `on`.
        classify_intersection_throughput(
            &app.analytics.intersection_thruput,
            &app.map.intersections,
            TripMode::Bike,
            &on,
            &mut ints_on,
            &mut ints_off,
        );

        let mut colorer = ColorNetwork::new();
        colorer.ranked_roads(&on, &app.cs.good_to_bad_green, NUM_TIERS);
        colorer.ranked_roads(&off, &app.cs.good_to_bad_red, NUM_TIERS);
        colorer.ranked_intersections(&ints_on, &app.cs.good_to_bad_green, NUM_TIERS);
        colorer.ranked_intersections(&ints_off, &app.cs.good_to_bad_red, NUM_TIERS);
        proof {
            assert(bike_counters_ok(*app, on, off, ints_on, ints_off));
        }
        let (unzoomed, zoomed) = colorer.build();
        proof {
            assert(unzoomed.fills@ =~= spec_ranked_road_fills(
                on,
                app.cs.good_to_bad_green,
                NUM_TIERS as int,
            ) + spec_ranked_road_fills(off, app.cs.good_to_bad_red, NUM_TIERS as int)
                + spec_ranked_intersection_fills(ints_on, app.cs.good_to_bad_green, NUM_TIERS as int)
                + spec_ranked_intersection_fills(ints_off, app.cs.good_to_bad_red, NUM_TIERS as int));
            assert(is_bike_overlay(*app, unzoomed.fills@));
        }

        let line1 = counted_line(num_lanes as u64, " lanes");
        let mut line2 = String::from_str("total distance of ");
        let dist_text = u64_to_string(total_dist);
        line2.append(dist_text.as_str());
        let mut lines: Vec<String> = Vec::new();
        lines.push(line1);
        lines.push(line2);
        let mut legend: Vec<(String, Color)> = Vec::new();
        legend.push(
            (String::from_str("Throughput on bike lanes: lowest count"), app.cs.good_to_bad_green.low),
        );
        legend.push(
            (String::from_str("Throughput on bike lanes: highest"), app.cs.good_to_bad_green.high),
        );
        legend.push(
            (
                String::from_str("Throughput on unprotected roads: lowest count"),
                app.cs.good_to_bad_red.low,
            ),
        );
        legend.push(
            (
                String::from_str("Throughput on unprotected roads: highest"),
                app.cs.good_to_bad_red.high,
            ),
        );
        let composite = Panel { title: String::from_str("Bike network"), lines, legend };

        BikeNetwork { composite, time: app.analytics.time, unzoomed, zoomed }
    }

    /// The menu label of this layer.
    pub fn name(&self) -> (r: Option<&'static str>)
        ensures
            match r {
                Some(s) => s@ == "bike network"@,
                None => false,
            },
    {
        Some("bike network")
    }

    /// The per-frame poll: rebuild if and only if the simulation clock has
    /// advanced past the cached build time, then forward the UI event to
    /// the panel. Polled at an unchanged clock, the cached batches are
    /// reused untouched.
    pub fn event(&mut self, app: &AppSnapshot, ev: UiEvent) -> (r: Option<LayerOutcome>)
        requires
            app_wf(*app),
        ensures
            app.analytics.time == old(self).time ==> *final(self) == *old(self),
            app.analytics.time != old(self).time ==> is_fresh_bike_network(*app, *final(self)),
            r == spec_simple_event(ev),
    {
        if app.analytics.time != self.time {
            *self = BikeNetwork::new(app);
        }
        simple_event(ev)
    }

    /// Draw the legend panel, then whichever batch matches the viewport
    /// zoom: the coarse batch below the detail threshold, the fine one at
    /// or above it.
    pub fn draw<'a>(&'a self, app: &AppSnapshot, cam_zoom: u64) -> (r: (&'a Panel, &'a Batch))
        ensures
            *r.0 == self.composite,
            cam_zoom < app.opts.min_zoom_for_detail ==> *r.1 == self.unzoomed,
            cam_zoom >= app.opts.min_zoom_for_detail ==> *r.1 == self.zoomed,
    {
        if cam_zoom < app.opts.min_zoom_for_detail {
            (&self.composite, &self.unzoomed)
        } else {
            (&self.composite, &self.zoomed)
        }
    }

    /// The minimap always shows the coarse batch, whatever the main
    /// viewport's zoom.
    pub fn draw_minimap<'a>(&'a self) -> (r: &'a Batch)
        ensures
            *r == self.unzoomed,
    {
        &self.unzoomed
    }
}

/// The fills of the bus layer's lanes: every bus lane, in lane order.
pub open spec fn bus_lane_fills(lanes: Seq<crate::classify::LaneRec>, c: Color) -> Seq<
    (EntityRef, Color),
>
    decreases lanes.len(),
{
    if lanes.len() == 0 {
        Seq::empty()
    } else if lanes.last().is_bus {
        bus_lane_fills(lanes.drop_last(), c).push((EntityRef::Lane(lanes.last().id), c))
    } else {
        bus_lane_fills(lanes.drop_last(), c)
    }
}

/// Ids colored as lanes.
pub open spec fn lane_id_fills(ids: Seq<u64>, c: Color) -> Seq<(EntityRef, Color)> {
    ids.map_values(|id: u64| (EntityRef::Lane(id), c))
}

/// Ids colored as intersections.
pub open spec fn int_id_fills(ids: Seq<u64>, c: Color) -> Seq<(EntityRef, Color)> {
    ids.map_values(|id: u64| (EntityRef::Intersection(id), c))
}

/// Ids colored as roads.
pub open spec fn road_id_fills(ids: Seq<u64>, c: Color) -> Seq<(EntityRef, Color)> {
    ids.map_values(|id: u64| (EntityRef::Road(id), c))
}

/// Ids colored as bus stops.
pub open spec fn bus_stop_fills(ids: Seq<u64>, c: Color) -> Seq<(EntityRef, Color)> {
    ids.map_values(|id: u64| (EntityRef::BusStop(id), c))
}

/// A static aggregate overlay: built exactly once, from immutable map
/// data, through a one-time discrete classification pass; it never
/// rebuilds.
#[derive(Clone, Debug, PartialEq)]
pub struct Static {
    pub composite: Panel,
    pub unzoomed: Batch,
    pub zoomed: Batch,
    pub name: &'static str,
}

impl Static {
    /// Assemble the layer from a consumed discrete colorer and its panel
    /// text.
    fn new(colorer: ColorDiscrete, name: &'static str, title: String, extra: Vec<String>) -> (r:
        Static)
        ensures
            r.name@ == name@,
            r.composite.title == title,
            r.composite.lines == extra,
            r.composite.legend@ == colorer.categories@,
            r.unzoomed.detail == Detail::Coarse,
            r.zoomed.detail == Detail::Fine,
            r.unzoomed.fills@ == colorer.fills@,
            r.zoomed.fills@ == colorer.fills@,
    {
        let (unzoomed, zoomed, legend) = colorer.build();
        let composite = Panel { title, lines: extra, legend: legend.entries };
        Static { composite, unzoomed, zoomed, name }
    }

    /// The menu label of this layer.
    pub fn name<'a>(&'a self) -> (r: Option<&'a str>)
        ensures
            match r {
                Some(s) => s@ == self.name@,
                None => false,
            },
    {
        Some(self.name)
    }

    /// Forward the UI event to the panel; a static layer never rebuilds.
    pub fn event(&mut self, ev: UiEvent) -> (r: Option<LayerOutcome>)
        ensures
            *final(self) == *old(self),
            r == spec_simple_event(ev),
    {
        simple_event(ev)
    }

    /// Draw the legend panel, then whichever batch matches the viewport
    /// zoom.
    pub fn draw<'a>(&'a self, app: &AppSnapshot, cam_zoom: u64) -> (r: (&'a Panel, &'a Batch))
        ensures
            *r.0 == self.composite,
            cam_zoom < app.opts.min_zoom_for_detail ==> *r.1 == self.unzoomed,
            cam_zoom >= app.opts.min_zoom_for_detail ==> *r.1 == self.zoomed,
    {
        if cam_zoom < app.opts.min_zoom_for_detail {
            (&self.composite, &self.unzoomed)
        } else {
            (&self.composite, &self.zoomed)
        }
    }

    /// The minimap always shows the coarse batch.
    pub fn draw_minimap<'a>(&'a self) -> (r: &'a Batch)
        ensures
            *r == self.unzoomed,
    {
        &self.unzoomed
    }

    /// The bus-network overlay: every bus lane and bus stop in the bus
    /// layer color.
    pub fn bus_network(app: &AppSnapshot) -> (r: Static)
        ensures
            r.name@ == "bus network"@,
            r.composite.title@ == "Bus network"@,
            r.composite.lines@.len() == 0,
            r.composite.legend@.len() == 2,
            r.composite.legend@[0].0@ == "bus lanes"@,
            r.composite.legend@[0].1 == app.cs.bus_layer,
            r.composite.legend@[1].0@ == "bus stops"@,
            r.composite.legend@[1].1 == app.cs.bus_layer,
            r.unzoomed.detail == Detail::Coarse,
            r.zoomed.detail == Detail::Fine,
            r.unzoomed.fills@ == bus_lane_fills(app.map.lanes@, app.cs.bus_layer) + bus_stop_fills(
                app.map.bus_stops@,
                app.cs.bus_layer,
            ),
            r.zoomed.fills@ == r.unzoomed.fills@,
    {
        proof {
            reveal_strlit("bus lanes");
            reveal_strlit("bus stops");
        }
        let mut cats: Vec<(String, Color)> = Vec::new();
        cats.push((String::from_str("bus lanes"), app.cs.bus_layer));
        cats.push((String::from_str("bus stops"), app.cs.bus_layer));
        let mut colorer = ColorDiscrete::new(cats);
        let ghost cats0 = colorer.categories@;
        let cat_lanes = String::from_str("bus lanes");
        let cat_stops = String::from_str("bus stops");
        proof {
            assert(spec_cat_color(cats0, cat_lanes@) == Some(app.cs.bus_layer));
            assert("bus lanes"@[4] == 'l');
            assert("bus stops"@[4] == 's');
            assert(cats0[0].0@ != cat_stops@);
            assert(cats0.drop_first() =~= seq![cats0[1]]);
            assert(spec_cat_color(cats0.drop_first(), cat_stops@) == Some(app.cs.bus_layer));
            assert(spec_cat_color(cats0, cat_stops@) == Some(app.cs.bus_layer));
            assert(app.map.lanes@.take(0) =~= Seq::<crate::classify::LaneRec>::empty());
        }
        let mut i: usize = 0;
        while i < app.map.lanes.len()
            invariant
                colorer.categories@ == cats0,
                spec_cat_color(cats0, cat_lanes@) == Some(app.cs.bus_layer),
                spec_cat_color(cats0, cat_stops@) == Some(app.cs.bus_layer),
                0 <= i <= app.map.lanes@.len(),
                colorer.fills@ == bus_lane_fills(app.map.lanes@.take(i as int), app.cs.bus_layer),
            decreases app.map.lanes@.len() - i,
        {
            proof {
                assert(app.map.lanes@.take(i + 1).drop_last() =~= app.map.lanes@.take(i as int));
                assert(app.map.lanes@.take(i + 1).last() == app.map.lanes@[i as int]);
            }
            if app.map.lanes[i].is_bus {
                let _res = colorer.add_l(app.map.lanes[i].id, &cat_lanes);
            }
            i = i + 1;
        }
        proof {
            assert(app.map.lanes@.take(app.map.lanes@.len() as int) =~= app.map.lanes@);
        }
        let ghost lane_part = colorer.fills@;
        let mut j: usize = 0;
        proof {
            assert(bus_stop_fills(app.map.bus_stops@.take(0), app.cs.bus_layer) =~= Seq::<
                (EntityRef, Color),
            >::empty());
            assert(colorer.fills@ =~= lane_part + bus_stop_fills(
                app.map.bus_stops@.take(0),
                app.cs.bus_layer,
            ));
        }
        while j < app.map.bus_stops.len()
            invariant
                colorer.categories@ == cats0,
                spec_cat_color(cats0, cat_stops@) == Some(app.cs.bus_layer),
                0 <= j <= app.map.bus_stops@.len(),
                colorer.fills@ == lane_part + bus_stop_fills(
                    app.map.bus_stops@.take(j as int),
                    app.cs.bus_layer,
                ),
            decreases app.map.bus_stops@.len() - j,
        {
            let _res = colorer.add_bs(app.map.bus_stops[j], &cat_stops);
            proof {
                let ghost t1 = bus_stop_fills(app.map.bus_stops@.take(j + 1), app.cs.bus_layer);
                let ghost t0 = bus_stop_fills(app.map.bus_stops@.take(j as int), app.cs.bus_layer);
                assert(t1.len() == j + 1);
                assert forall|q: int| 0 <= q < t1.len() implies t1[q] == (if q < j {
                    t0[q]
                } else {
                    (EntityRef::BusStop(app.map.bus_stops@[j as int]), app.cs.bus_layer)
                }) by {
                    assert(t1[q] == (EntityRef::BusStop(app.map.bus_stops@.take(j + 1)[q]),
                    app.cs.bus_layer));
                    if q < j {
                        assert(t0[q] == (EntityRef::BusStop(app.map.bus_stops@.take(j as int)[q]),
                        app.cs.bus_layer));
                    }
                }
                assert(colorer.fills@ =~= lane_part + t1);
            }
            j = j + 1;
        }
        proof {
            assert(app.map.bus_stops@.take(app.map.bus_stops@.len() as int) =~= app.map.bus_stops@);
        }
        Static::new(colorer, "bus network", String::from_str("Bus network"), Vec::new())
    }

    /// The map-edits overlay: every edited lane, intersection and road in
    /// the edits color, with a summary line per kind of edit.
    pub fn edits(app: &AppSnapshot) -> (r: Static)
        ensures
            r.name@ == "map edits"@,
            r.composite.title@ == "Map edits ("@ + app.map.edits.edits_name@ + ")"@,
            r.composite.lines@.len() == 4,
            r.composite.lines@[0]@ == spec_decimal(app.map.edits.original_lts@.len() as int)
                + " lane types changed"@,
            r.composite.lines@[1]@ == spec_decimal(app.map.edits.reversed_lanes@.len() as int)
                + " lanes reversed"@,
            r.composite.lines@[2]@ == spec_decimal(app.map.edits.changed_speed_limits@.len() as int)
                + " speed limits changed"@,
            r.composite.lines@[3]@ == spec_decimal(
                app.map.edits.original_intersections@.len() as int,
            ) + " intersections changed"@,
            r.composite.legend@.len() == 1,
            r.composite.legend@[0].0@ == "modified lane/intersection"@,
            r.composite.legend@[0].1 == app.cs.edits_layer,
            r.unzoomed.detail == Detail::Coarse,
            r.zoomed.detail == Detail::Fine,
            r.unzoomed.fills@ == lane_id_fills(app.map.edits.original_lts@, app.cs.edits_layer)
                + lane_id_fills(app.map.edits.reversed_lanes@, app.cs.edits_layer) + int_id_fills(
                app.map.edits.original_intersections@,
                app.cs.edits_layer,
            ) + road_id_fills(app.map.edits.changed_speed_limits@, app.cs.edits_layer),
            r.zoomed.fills@ == r.unzoomed.fills@,
    {
        let mut cats: Vec<(String, Color)> = Vec::new();
        cats.push((String::from_str("modified lane/intersection"), app.cs.edits_layer));
        let mut colorer = ColorDiscrete::new(cats);
        let cat = String::from_str("modified lane/intersection");
        proof {
            assert(spec_cat_color(colorer.categories@, cat@) == Some(app.cs.edits_layer));
        }
        add_lane_ids(&mut colorer, &app.map.edits.original_lts, &cat);
        add_lane_ids(&mut colorer, &app.map.edits.reversed_lanes, &cat);
        add_int_ids(&mut colorer, &app.map.edits.original_intersections, &cat);
        add_road_ids(&mut colorer, &app.map.edits.changed_speed_limits, &cat);
        proof {
            assert(colorer.fills@ =~= lane_id_fills(
                app.map.edits.original_lts@,
                app.cs.edits_layer,
            ) + lane_id_fills(app.map.edits.reversed_lanes@, app.cs.edits_layer) + int_id_fills(
                app.map.edits.original_intersections@,
                app.cs.edits_layer,
            ) + road_id_fills(app.map.edits.changed_speed_limits@, app.cs.edits_layer));
        }
        let mut title = String::from_str("Map edits (");
        title.append(app.map.edits.edits_name.as_str());
        title.append(")");
        let mut lines: Vec<String> = Vec::new();
        lines.push(counted_line(app.map.edits.original_lts.len() as u64, " lane types changed"));
        lines.push(counted_line(app.map.edits.reversed_lanes.len() as u64, " lanes reversed"));
        lines.push(
            counted_line(app.map.edits.changed_speed_limits.len() as u64, " speed limits changed"),
        );
        lines.push(
            counted_line(
                app.map.edits.original_intersections.len() as u64,
                " intersections changed",
            ),
        );
        Static::new(colorer, "map edits", title, lines)
    }

    /// The amenities overlay: each building colored once per categorized
    /// amenity it hosts, plus once in the "other" color when any amenity
    /// fell outside the declared categories.
    pub fn amenities(app: &AppSnapshot) -> (r: Static)
        requires
            amenities_ok(app.map.buildings@),
        ensures
            r.name@ == "amenities"@,
            r.composite.title@ == "Amenities"@,
            r.composite.lines@.len() == 0,
            is_amenity_legend(r.composite.legend@),
            r.unzoomed.detail == Detail::Coarse,
            r.zoomed.detail == Detail::Fine,
            r.unzoomed.fills@ == amenities_fills(app.map.buildings@),
            r.zoomed.fills@ == r.unzoomed.fills@,
    {
        let names = amenity_categories();
        let cats_v = amenity_categories();
        let mut colorer = ColorDiscrete::new(cats_v);
        let ghost cats0 = colorer.categories@;
        proof {
            assert(app.map.buildings@.take(0) =~= Seq::<crate::world::BuildingRec>::empty());
        }
        let mut b: usize = 0;
        while b < app.map.buildings.len()
            invariant
                amenities_ok(app.map.buildings@),
                colorer.categories@ == cats0,
                is_amenity_legend(cats0),
                cats0.len() == 11,
                forall|x: int, y: int| 0 <= x < y < 11 ==> (#[trigger] cats0[x]).0@ != (#[trigger] cats0[y]).0@,
                forall|i: int| 0 <= i < 11 ==> (#[trigger] names@[i]).0@ == cats0[i].0@,
                names@.len() == 11,
                0 <= b <= app.map.buildings@.len(),
                colorer.fills@ == amenities_fills(app.map.buildings@.take(b as int)),
            decreases app.map.buildings@.len() - b,
        {
            let bld = &app.map.buildings[b];
            let ghost base = colorer.fills@;
            let mut other = false;
            let mut j: usize = 0;
            proof {
                assert(bld.amenities@.take(0) =~= Seq::<Option<usize>>::empty());
                assert(colorer.fills@ =~= base + amenity_fills(bld.amenities@.take(0), bld.id));
            }
            while j < bld.amenities.len()
                invariant
                    amenities_ok(app.map.buildings@),
                    colorer.categories@ == cats0,
                    is_amenity_legend(cats0),
                    cats0.len() == 11,
                    forall|x: int, y: int|
                        0 <= x < y < 11 ==> (#[trigger] cats0[x]).0@ != (#[trigger] cats0[y]).0@,
                    forall|i: int| 0 <= i < 11 ==> (#[trigger] names@[i]).0@ == cats0[i].0@,
                    names@.len() == 11,
                    0 <= b < app.map.buildings@.len(),
                    bld == app.map.buildings@[b as int],
                    0 <= j <= bld.amenities@.len(),
                    colorer.fills@ == base + amenity_fills(bld.amenities@.take(j as int), bld.id),
                    other == has_uncategorized(bld.amenities@.take(j as int)),
                decreases bld.amenities@.len() - j,
            {
                let ghost t0 = bld.amenities@.take(j as int);
                let ghost t1 = bld.amenities@.take(j + 1);
                proof {
                    assert(t1.drop_last() =~= t0);
                    assert(t1.last() == bld.amenities@[j as int]);
                    assert forall|w: int|
                        0 <= w < t0.len() implies #[trigger] t1[w] == t0[w] by {}
                    if has_uncategorized(t0) {
                        let w = choose|w: int| 0 <= w < t0.len() && (#[trigger] t0[w]) is None;
                        assert(t1[w] is None);
                    }
                    if has_uncategorized(t1) && !(bld.amenities@[j as int] is None) {
                        let w = choose|w: int| 0 <= w < t1.len() && (#[trigger] t1[w]) is None;
                        assert(w < t0.len() && t0[w] is None);
                    }
                }
                match bld.amenities[j] {
                    Some(idx) => {
                        proof {
                            assert(bld.amenities@[j as int] == Some(idx));
                            assert(idx < 10);
                            lemma_cat_color_at(cats0, idx as int);
                            assert(spec_cat_color(cats0, names@[idx as int].0@) == Some(
                                amenity_color(idx as int),
                            ));
                        }
                        let _res = colorer.add_b(bld.id, &names[idx].0);
                    },
                    None => {
                        other = true;
                    },
                }
                j = j + 1;
            }
            proof {
                assert(bld.amenities@.take(bld.amenities@.len() as int) =~= bld.amenities@);
            }
            if other {
                proof {
                    lemma_cat_color_at(cats0, 10);
                    assert(spec_cat_color(cats0, names@[10].0@) == Some(amenity_color(10)));
                }
                let _res = colorer.add_b(bld.id, &names[10].0);
            }
            proof {
                assert(app.map.buildings@.take(b + 1).drop_last() =~= app.map.buildings@.take(
                    b as int,
                ));
                assert(app.map.buildings@.take(b + 1).last() == app.map.buildings@[b as int]);
                if has_uncategorized(bld.amenities@) {
                    assert(colorer.fills@ =~= base + (amenity_fills(bld.amenities@, bld.id)
                        + seq![(EntityRef::Building(bld.id), amenity_color(10))]));
                } else {
                    assert(colorer.fills@ =~= base + (amenity_fills(bld.amenities@, bld.id)
                        + Seq::<(EntityRef, Color)>::empty()));
                }
                assert(colorer.fills@ =~= amenities_fills(app.map.buildings@.take(b + 1)));
            }
            b = b + 1;
        }
        proof {
            assert(app.map.buildings@.take(app.map.buildings@.len() as int)
                =~= app.map.buildings@);
        }
        Static::new(colorer, "amenities", String::from_str("Amenities"), Vec::new())
    }
}

/// Every categorized amenity index points at one of the ten named
/// categories.
pub open spec fn amenities_ok(buildings: Seq<crate::world::BuildingRec>) -> bool {
    forall|b: int, j: int|
        0 <= b < buildings.len() && 0 <= j < buildings[b].amenities@.len() && (
        #[trigger] buildings[b].amenities@[j]) is Some ==> buildings[b].amenities@[j].unwrap() < 10
}

/// The color of each amenity category, "other" last.
pub open spec fn amenity_color(i: int) -> Color {
    if i == 0 {
        Color { r: 0, g: 0, b: 0, a: 255 }
    } else if i == 1 {
        Color { r: 255, g: 0, b: 0, a: 255 }
    } else if i == 2 {
        Color { r: 0, g: 0, b: 255, a: 255 }
    } else if i == 3 {
        Color { r: 128, g: 0, b: 128, a: 255 }
    } else if i == 4 {
        Color { r: 0, g: 255, b: 0, a: 255 }
    } else if i == 5 {
        Color { r: 0, g: 255, b: 255, a: 255 }
    } else if i == 6 {
        Color { r: 255, g: 255, b: 0, a: 255 }
    } else if i == 7 {
        Color { r: 255, g: 192, b: 203, a: 255 }
    } else if i == 8 {
        Color { r: 255, g: 165, b: 0, a: 255 }
    } else if i == 9 {
        Color { r: 255, g: 255, b: 255, a: 255 }
    } else {
        Color { r: 150, g: 50, b: 47, a: 255 }
    }
}

/// The amenity category list: eleven named categories with their colors.
pub open spec fn is_amenity_legend(cats: Seq<(String, Color)>) -> bool {
    &&& cats.len() == 11
    &&& forall|i: int| 0 <= i < 11 ==> (#[trigger] cats[i]).1 == amenity_color(i)
    &&& cats[0].0@ == "groceries"@
    &&& cats[1].0@ == "food"@
    &&& cats[2].0@ == "bar"@
    &&& cats[3].0@ == "medical"@
    &&& cats[4].0@ == "church / temple"@
    &&& cats[5].0@ == "education"@
    &&& cats[6].0@ == "bank / post office"@
    &&& cats[7].0@ == "media"@
    &&& cats[8].0@ == "childcare"@
    &&& cats[9].0@ == "shopping"@
    &&& cats[10].0@ == "other"@
}

/// The fills one building's categorized amenities contribute, in amenity
/// order.
pub open spec fn amenity_fills(ams: Seq<Option<usize>>, id: u64) -> Seq<(EntityRef, Color)>
    decreases ams.len(),
{
    if ams.len() == 0 {
        Seq::empty()
    } else {
        let prev = amenity_fills(ams.drop_last(), id);
        match ams.last() {
            Some(i) => prev.push((EntityRef::Building(id), amenity_color(i as int))),
            None => prev,
        }
    }
}

/// Whether any amenity fell outside the declared categories.
pub open spec fn has_uncategorized(ams: Seq<Option<usize>>) -> bool {
    exists|i: int| 0 <= i < ams.len() && (#[trigger] ams[i]) is None
}

/// The fills one building contributes: its categorized amenities, then one
/// "other" fill when any amenity was uncategorized.
pub open spec fn building_fills(b: crate::world::BuildingRec) -> Seq<(EntityRef, Color)> {
    amenity_fills(b.amenities@, b.id) + if has_uncategorized(b.amenities@) {
        seq![(EntityRef::Building(b.id), amenity_color(10))]
    } else {
        Seq::empty()
    }
}

/// The fills of the whole amenities overlay, in building order.
pub open spec fn amenities_fills(buildings: Seq<crate::world::BuildingRec>) -> Seq<
    (EntityRef, Color),
>
    decreases buildings.len(),
{
    if buildings.len() == 0 {
        Seq::empty()
    } else {
        amenities_fills(buildings.drop_last()) + building_fills(buildings.last())
    }
}

/// A category list's first match at a name that occurs exactly once at
/// `idx` yields that entry's color.
proof fn lemma_cat_color_at(cats: Seq<(String, Color)>, idx: int)
    requires
        0 <= idx < cats.len(),
        forall|j: int| 0 <= j < idx ==> (#[trigger] cats[j]).0@ != cats[idx].0@,
    ensures
        spec_cat_color(cats, cats[idx].0@) == Some(cats[idx].1),
    decreases idx,
{
    if idx > 0 {
        assert forall|j: int|
            0 <= j < idx - 1 implies (#[trigger] cats.drop_first()[j]).0@ != cats.drop_first()[idx
            - 1].0@ by {
            assert(cats.drop_first()[j] == cats[j + 1]);
            assert(cats.drop_first()[idx - 1] == cats[idx]);
        }
        assert(cats.drop_first()[idx - 1] == cats[idx]);
        lemma_cat_color_at(cats.drop_first(), idx - 1);
    }
}

/// Build the amenity category list.
#[verifier::rlimit(100)]
fn amenity_categories() -> (v: Vec<(String, Color)>)
    ensures
        is_amenity_legend(v@),
        forall|x: int, y: int| 0 <= x < y < 11 ==> (#[trigger] v@[x]).0@ != (#[trigger] v@[y]).0@,
{
    proof {
        reveal_strlit("groceries");
        reveal_strlit("food");
        reveal_strlit("bar");
        reveal_strlit("medical");
        reveal_strlit("church / temple");
        reveal_strlit("education");
        reveal_strlit("bank / post office");
        reveal_strlit("media");
        reveal_strlit("childcare");
        reveal_strlit("shopping");
        reveal_strlit("other");
    }
    let mut v: Vec<(String, Color)> = Vec::new();
    v.push((String::from_str("groceries"), Color { r: 0, g: 0, b: 0, a: 255 }));
    v.push((String::from_str("food"), Color { r: 255, g: 0, b: 0, a: 255 }));
    v.push((String::from_str("bar"), Color { r: 0, g: 0, b: 255, a: 255 }));
    v.push((String::from_str("medical"), Color { r: 128, g: 0, b: 128, a: 255 }));
    v.push((String::from_str("church / temple"), Color { r: 0, g: 255, b: 0, a: 255 }));
    v.push((String::from_str("education"), Color { r: 0, g: 255, b: 255, a: 255 }));
    v.push((String::from_str("bank / post office"), Color { r: 255, g: 255, b: 0, a: 255 }));
    v.push((String::from_str("media"), Color { r: 255, g: 192, b: 203, a: 255 }));
    v.push((String::from_str("childcare"), Color { r: 255, g: 165, b: 0, a: 255 }));
    v.push((String::from_str("shopping"), Color { r: 255, g: 255, b: 255, a: 255 }));
    v.push((String::from_str("other"), Color { r: 150, g: 50, b: 47, a: 255 }));
    proof {
        assert forall|x: int, y: int|
            0 <= x < y < 11 implies (#[trigger] v@[x]).0@ != (#[trigger] v@[y]).0@ by {
            if v@[x].0@.len() == v@[y].0@.len() {
                assert(v@[x].0@[0] != v@[y].0@[0]);
            }
        }
    }
    v
}

/// Append each id as a lane fill in the category's color.
fn add_lane_ids(colorer: &mut ColorDiscrete, ids: &Vec<u64>, cat: &String)
    requires
        spec_cat_color(old(colorer).categories@, cat@) is Some,
    ensures
        final(colorer).categories@ == old(colorer).categories@,
        match spec_cat_color(old(colorer).categories@, cat@) {
            Some(c) => final(colorer).fills@ == old(colorer).fills@ + lane_id_fills(ids@, c),
            None => false,
        },
{
    let ghost base = colorer.fills@;
    let ghost c = spec_cat_color(colorer.categories@, cat@).unwrap();
    let mut i: usize = 0;
    proof {
        assert(colorer.fills@ =~= base + lane_id_fills(ids@.take(0), c));
    }
    while i < ids.len()
        invariant
            spec_cat_color(colorer.categories@, cat@) == Some(c),
            colorer.categories@ == old(colorer).categories@,
            0 <= i <= ids@.len(),
            colorer.fills@ == base + lane_id_fills(ids@.take(i as int), c),
        decreases ids@.len() - i,
    {
        let _res = colorer.add_l(ids[i], cat);
        proof {
            let ghost t1 = lane_id_fills(ids@.take(i + 1), c);
            let ghost t0 = lane_id_fills(ids@.take(i as int), c);
            assert forall|q: int| 0 <= q < t1.len() implies t1[q] == (if q < i {
                t0[q]
            } else {
                (EntityRef::Lane(ids@[i as int]), c)
            }) by {
                assert(t1[q] == (EntityRef::Lane(ids@.take(i + 1)[q]), c));
                if q < i {
                    assert(t0[q] == (EntityRef::Lane(ids@.take(i as int)[q]), c));
                }
            }
            assert(colorer.fills@ =~= base + t1);
        }
        i = i + 1;
    }
    proof {
        assert(ids@.take(ids@.len() as int) =~= ids@);
    }
}

/// Append each id as an intersection fill in the category's color.
fn add_int_ids(colorer: &mut ColorDiscrete, ids: &Vec<u64>, cat: &String)
    requires
        spec_cat_color(old(colorer).categories@, cat@) is Some,
    ensures
        final(colorer).categories@ == old(colorer).categories@,
        match spec_cat_color(old(colorer).categories@, cat@) {
            Some(c) => final(colorer).fills@ == old(colorer).fills@ + int_id_fills(ids@, c),
            None => false,
        },
{
    let ghost base = colorer.fills@;
    let ghost c = spec_cat_color(colorer.categories@, cat@).unwrap();
    let mut i: usize = 0;
    proof {
        assert(colorer.fills@ =~= base + int_id_fills(ids@.take(0), c));
    }
    while i < ids.len()
        invariant
            spec_cat_color(colorer.categories@, cat@) == Some(c),
            colorer.categories@ == old(colorer).categories@,
            0 <= i <= ids@.len(),
            colorer.fills@ == base + int_id_fills(ids@.take(i as int), c),
        decreases ids@.len() - i,
    {
        let _res = colorer.add_i(ids[i], cat);
        proof {
            let ghost t1 = int_id_fills(ids@.take(i + 1), c);
            let ghost t0 = int_id_fills(ids@.take(i as int), c);
            assert forall|q: int| 0 <= q < t1.len() implies t1[q] == (if q < i {
                t0[q]
            } else {
                (EntityRef::Intersection(ids@[i as int]), c)
            }) by {
                assert(t1[q] == (EntityRef::Intersection(ids@.take(i + 1)[q]), c));
                if q < i {
                    assert(t0[q] == (EntityRef::Intersection(ids@.take(i as int)[q]), c));
                }
            }
            assert(colorer.fills@ =~= base + t1);
        }
        i = i + 1;
    }
    proof {
        assert(ids@.take(ids@.len() as int) =~= ids@);
    }
}

/// Append each id as a road fill in the category's color.
fn add_road_ids(colorer: &mut ColorDiscrete, ids: &Vec<u64>, cat: &String)
    requires
        spec_cat_color(old(colorer).categories@, cat@) is Some,
    ensures
        final(colorer).categories@ == old(colorer).categories@,
        match spec_cat_color(old(colorer).categories@, cat@) {
            Some(c) => final(colorer).fills@ == old(colorer).fills@ + road_id_fills(ids@, c),
            None => false,
        },
{
    let ghost base = colorer.fills@;
    let ghost c = spec_cat_color(colorer.categories@, cat@).unwrap();
    let mut i: usize = 0;
    proof {
        assert(colorer.fills@ =~= base + road_id_fills(ids@.take(0), c));
    }
    while i < ids.len()
        invariant
            spec_cat_color(colorer.categories@, cat@) == Some(c),
            colorer.categories@ == old(colorer).categories@,
            0 <= i <= ids@.len(),
            colorer.fills@ == base + road_id_fills(ids@.take(i as int), c),
        decreases ids@.len() - i,
    {
        let _res = colorer.add_r(ids[i], cat);
        proof {
            let ghost t1 = road_id_fills(ids@.take(i + 1), c);
            let ghost t0 = road_id_fills(ids@.take(i as int), c);
            assert forall|q: int| 0 <= q < t1.len() implies t1[q] == (if q < i {
                t0[q]
            } else {
                (EntityRef::Road(ids@[i as int]), c)
            }) by {
                assert(t1[q] == (EntityRef::Road(ids@.take(i + 1)[q]), c));
                if q < i {
                    assert(t0[q] == (EntityRef::Road(ids@.take(i as int)[q]), c));
                }
            }
            assert(colorer.fills@ =~= base + t1);
        }
        i = i + 1;
    }
    proof {
        assert(ids@.take(ids@.len() as int) =~= ids@);
    }
}

} // verus!
