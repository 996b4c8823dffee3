use map_overlays::classify::{IntersectionRec, LaneRec, RoadRec, ThruputEvent, TripMode};
use map_overlays::color::{Color, Gradient};
use map_overlays::layer::{BikeNetwork, LayerOutcome, Static, UiEvent};
use map_overlays::overlay::{ColorDiscrete, Detail, EntityRef, LayerError};
use map_overlays::text::u64_to_string;
use map_overlays::world::{
    Analytics, AppSnapshot, BuildingRec, ColorConfig, EditsRec, MapSnapshot, Options,
};

fn test_colors() -> ColorConfig {
    ColorConfig {
        good_to_bad_green: Gradient {
            low: Color { r: 0, g: 200, b: 0, a: 255 },
            high: Color { r: 0, g: 60, b: 0, a: 255 },
        },
        good_to_bad_red: Gradient {
            low: Color { r: 200, g: 0, b: 0, a: 255 },
            high: Color { r: 60, g: 0, b: 0, a: 255 },
        },
        bus_layer: Color { r: 0, g: 0, b: 200, a: 255 },
        edits_layer: Color { r: 200, g: 200, b: 0, a: 255 },
        pedestrian: Color { r: 51, g: 178, b: 178, a: 255 },
        pedestrian_preparing_bike: Color { r: 255, g: 0, b: 144, a: 255 },
        blinker_on: Color { r: 255, g: 255, b: 255, a: 255 },
    }
}

fn small_app(time: u64, bike_count_road0: u64) -> AppSnapshot {
    AppSnapshot {
        map: MapSnapshot {
            lanes: vec![
                LaneRec { id: 10, parent: 0, src_i: 7, is_biking: true, is_bus: false, length: 400 },
                LaneRec { id: 11, parent: 1, src_i: 7, is_biking: false, is_bus: true, length: 300 },
            ],
            roads: vec![
                RoadRec { id: 0, has_bike_lane: true },
                RoadRec { id: 1, has_bike_lane: false },
            ],
            intersections: vec![IntersectionRec { id: 7, roads: vec![0, 1] }],
            bus_stops: vec![70, 71],
            buildings: vec![],
            edits: EditsRec {
                edits_name: String::from("untitled"),
                original_lts: vec![10, 11],
                reversed_lanes: vec![12],
                changed_speed_limits: vec![0],
                original_intersections: vec![7],
            },
        },
        analytics: Analytics {
            time,
            road_thruput: vec![
                ThruputEvent { key: 0, mode: TripMode::Bike, count: bike_count_road0 },
                ThruputEvent { key: 1, mode: TripMode::Bike, count: 2 },
            ],
            intersection_thruput: vec![ThruputEvent { key: 7, mode: TripMode::Bike, count: 3 }],
        },
        cs: test_colors(),
        opts: Options { min_zoom_for_detail: 100 },
    }
}

#[test]
fn dynamic_layer_with_same_time_never_rebuilds() {
    let app = small_app(5, 9);
    let mut layer = BikeNetwork::new(&app);
    let before = layer.clone();
    let outcome = layer.event(&app, UiEvent::Idle);
    assert!(outcome.is_none());
    // Polled at an unchanged clock, every cached batch is identical.
    assert_eq!(layer, before);
}

#[test]
fn dynamic_layer_rebuilds_exactly_once_when_time_advances() {
    let app = small_app(5, 9);
    let mut layer = BikeNetwork::new(&app);
    let before = layer.clone();
    let later = small_app(6, 12);
    layer.event(&later, UiEvent::Idle);
    assert_eq!(layer.time, 6);
    assert_ne!(layer, before);
    // A second poll at the new time reuses the rebuilt batches.
    let after_rebuild = layer.clone();
    layer.event(&later, UiEvent::Idle);
    assert_eq!(layer, after_rebuild);
}

#[test]
fn layer_close_signal_is_forwarded() {
    let app = small_app(1, 1);
    let mut layer = BikeNetwork::new(&app);
    assert_eq!(layer.event(&app, UiEvent::ClosePressed), Some(LayerOutcome::Close));
    let mut bus = Static::bus_network(&app);
    assert_eq!(bus.event(UiEvent::ClosePressed), Some(LayerOutcome::Close));
    assert_eq!(bus.event(UiEvent::Idle), None);
}

#[test]
fn draw_picks_batch_by_zoom_threshold() {
    let app = small_app(2, 4);
    let layer = BikeNetwork::new(&app);
    let (_, coarse) = layer.draw(&app, 99);
    assert_eq!(coarse.detail, Detail::Coarse);
    let (_, fine) = layer.draw(&app, 100);
    assert_eq!(fine.detail, Detail::Fine);
    assert_eq!(layer.draw_minimap().detail, Detail::Coarse);
}

#[test]
fn bike_network_panel_reports_lane_stats() {
    let app = small_app(3, 4);
    let layer = BikeNetwork::new(&app);
    assert_eq!(layer.composite.title, "Bike network");
    assert_eq!(layer.composite.lines[0], "1 lanes");
    assert_eq!(layer.composite.lines[1], "total distance of 400");
    assert_eq!(layer.composite.legend.len(), 4);
    assert_eq!(layer.name(), Some("bike network"));
}

#[test]
fn bus_network_colors_bus_lanes_and_stops() {
    let app = small_app(0, 0);
    let layer = Static::bus_network(&app);
    assert_eq!(layer.name(), Some("bus network"));
    assert_eq!(layer.composite.title, "Bus network");
    let c = app.cs.bus_layer;
    assert_eq!(
        layer.unzoomed.fills,
        vec![
            (EntityRef::Lane(11), c),
            (EntityRef::BusStop(70), c),
            (EntityRef::BusStop(71), c),
        ],
    );
    assert_eq!(layer.zoomed.fills, layer.unzoomed.fills);
}

#[test]
fn edits_layer_lists_every_edit_with_counts() {
    let app = small_app(0, 0);
    let layer = Static::edits(&app);
    assert_eq!(layer.name(), Some("map edits"));
    assert_eq!(layer.composite.title, "Map edits (untitled)");
    assert_eq!(layer.composite.lines[0], "2 lane types changed");
    assert_eq!(layer.composite.lines[1], "1 lanes reversed");
    assert_eq!(layer.composite.lines[2], "1 speed limits changed");
    assert_eq!(layer.composite.lines[3], "1 intersections changed");
    let c = app.cs.edits_layer;
    assert_eq!(
        layer.unzoomed.fills,
        vec![
            (EntityRef::Lane(10), c),
            (EntityRef::Lane(11), c),
            (EntityRef::Lane(12), c),
            (EntityRef::Intersection(7), c),
            (EntityRef::Road(0), c),
        ],
    );
}

#[test]
fn amenities_layer_colors_buildings_per_category() {
    let mut app = small_app(0, 0);
    app.map.buildings = vec![
        BuildingRec {
            id: 1,
            points: vec![],
            front_path: None,
            osm_way_id: 0,
            osm_tags: vec![],
            amenities: vec![Some(0), Some(3)],
        },
        BuildingRec {
            id: 2,
            points: vec![],
            front_path: None,
            osm_way_id: 0,
            osm_tags: vec![],
            amenities: vec![None, Some(9), None],
        },
    ];
    let layer = Static::amenities(&app);
    assert_eq!(layer.name(), Some("amenities"));
    assert_eq!(layer.composite.legend.len(), 11);
    assert_eq!(layer.composite.legend[0].0, "groceries");
    assert_eq!(layer.composite.legend[10].0, "other");
    let black = Color { r: 0, g: 0, b: 0, a: 255 };
    let purple = Color { r: 128, g: 0, b: 128, a: 255 };
    let white = Color { r: 255, g: 255, b: 255, a: 255 };
    let other = Color { r: 150, g: 50, b: 47, a: 255 };
    assert_eq!(
        layer.unzoomed.fills,
        vec![
            (EntityRef::Building(1), black),
            (EntityRef::Building(1), purple),
            (EntityRef::Building(2), white),
            (EntityRef::Building(2), other),
        ],
    );
}

#[test]
fn strict_discrete_overlay_rejects_unknown_categories() {
    let mut colorer = ColorDiscrete::new(vec![(String::from("declared"), test_colors().bus_layer)]);
    assert_eq!(colorer.add_l(1, &String::from("declared")), Ok(()));
    assert_eq!(
        colorer.add_l(2, &String::from("missing")),
        Err(LayerError::UnknownCategory),
    );
    assert_eq!(colorer.fills.len(), 1);
}

#[test]
fn gradient_sampling_interpolates_each_channel() {
    let g = Gradient {
        low: Color { r: 0, g: 100, b: 0, a: 255 },
        high: Color { r: 200, g: 0, b: 0, a: 255 },
    };
    assert_eq!(g.sample(0, 3), Color { r: 0, g: 100, b: 0, a: 255 });
    assert_eq!(g.sample(1, 3), Color { r: 100, g: 50, b: 0, a: 255 });
    assert_eq!(g.sample(2, 3), Color { r: 200, g: 0, b: 0, a: 255 });
    // A single tier uses the low endpoint.
    assert_eq!(g.sample(0, 1), Color { r: 0, g: 100, b: 0, a: 255 });
}

#[test]
fn decimal_formatting_is_exact() {
    assert_eq!(u64_to_string(0), "0");
    assert_eq!(u64_to_string(7), "7");
    assert_eq!(u64_to_string(42), "42");
    assert_eq!(u64_to_string(90210), "90210");
}
