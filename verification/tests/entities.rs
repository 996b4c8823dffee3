use map_overlays::color::{Color, Gradient};
use map_overlays::geometry::{Pt, Rect, Segment};
use map_overlays::render::building::DrawBuilding;
use map_overlays::render::pedestrian::{DrawPedestrian, PedestrianInput, PED_RADIUS};
use map_overlays::render::{DrawCommand, ID};
use map_overlays::world::{
    Analytics, AppSnapshot, BuildingRec, ColorConfig, EditsRec, MapSnapshot, Options,
};

fn colors() -> ColorConfig {
    ColorConfig {
        good_to_bad_green: Gradient {
            low: Color { r: 0, g: 200, b: 0, a: 255 },
            high: Color { r: 0, g: 60, b: 0, a: 255 },
        },
        good_to_bad_red: Gradient {
            low: Color { r: 200, g: 0, b: 0, a: 255 },
            high: Color { r: 60, g: 0, b: 0, a: 255 },
        },
        bus_layer: Color { r: 0, g: 0, b: 200, a: 255 },
        edits_layer: Color { r: 200, g: 200, b: 0, a: 255 },
        pedestrian: Color { r: 51, g: 178, b: 178, a: 255 },
        pedestrian_preparing_bike: Color { r: 255, g: 0, b: 144, a: 255 },
        blinker_on: Color { r: 255, g: 255, b: 255, a: 255 },
    }
}

fn building_rec() -> BuildingRec {
    BuildingRec {
        id: 3,
        points: vec![Pt { x: 0, y: 0 }, Pt { x: 20, y: 0 }, Pt { x: 20, y: 10 }, Pt { x: 0, y: 10 }],
        front_path: Some(Segment { p1: Pt { x: 10, y: 0 }, p2: Pt { x: 10, y: -5 } }),
        osm_way_id: 4242,
        osm_tags: vec![String::from("building=yes"), String::from("name=Depot")],
        amenities: vec![],
    }
}

#[test]
fn building_draws_front_path_then_outline() {
    let b = DrawBuilding::new(&building_rec());
    let fill = Color { r: 9, g: 9, b: 9, a: 255 };
    let cmds = b.draw(fill);
    assert_eq!(cmds.len(), 2);
    assert_eq!(
        cmds[0],
        DrawCommand::Line {
            seg: Segment { p1: Pt { x: 10, y: 0 }, p2: Pt { x: 10, y: -5 } },
            color: Color { r: 0, g: 153, b: 0, a: 255 },
            width: 100,
        },
    );
    match &cmds[1] {
        DrawCommand::FillPolygon { poly, color } => {
            assert_eq!(poly.points, building_rec().points);
            assert_eq!(*color, fill);
        },
        other => panic!("unexpected command {:?}", other),
    }
}

#[test]
fn building_hit_testing_matches_outline() {
    let b = DrawBuilding::new(&building_rec());
    assert!(b.contains_pt(10, 5));
    assert!(!b.contains_pt(30, 5));
    assert!(!b.contains_pt(10, 50));
}

#[test]
fn building_bbox_covers_all_vertices() {
    let b = DrawBuilding::new(&building_rec());
    assert_eq!(b.get_bbox(), Rect { x1: 0, y1: 0, x2: 20, y2: 10 });
}

#[test]
fn building_tooltip_names_id_and_source_record() {
    let map = MapSnapshot {
        lanes: vec![],
        roads: vec![],
        intersections: vec![],
        bus_stops: vec![],
        buildings: vec![building_rec()],
        edits: EditsRec {
            edits_name: String::from("none"),
            original_lts: vec![],
            reversed_lanes: vec![],
            changed_speed_limits: vec![],
            original_intersections: vec![],
        },
    };
    let b = DrawBuilding::new(&building_rec());
    let lines = b.tooltip_lines(&map);
    assert_eq!(lines.len(), 3);
    assert_eq!(lines[0], "Building #3 (from OSM way 4242)");
    assert_eq!(lines[1], "building=yes");
    assert_eq!(lines[2], "name=Depot");
}

#[test]
fn pedestrian_geometry_follows_the_snapshot() {
    let cs = colors();
    let input = PedestrianInput {
        id: 8,
        pos: Pt { x: 1000, y: 2000 },
        waiting_for_turn: None,
        preparing_bike: false,
        on_zorder: -1,
    };
    let p = DrawPedestrian::new(&input, &cs);
    assert_eq!(p.get_id(), ID::Pedestrian(8));
    assert_eq!(p.get_zorder(), -1);
    assert!(p.contains_pt(1000 + PED_RADIUS, 2000));
    assert!(!p.contains_pt(1000 + PED_RADIUS + 1, 2000));
    let outline = p.get_outline();
    assert_eq!(outline.points.len(), 8);
    assert_eq!(outline.points[0], Pt { x: 1000 + PED_RADIUS, y: 2000 });
    let cmds = p.draw(None, false, &cs);
    assert_eq!(cmds.len(), 1);
    assert_eq!(
        cmds[0],
        DrawCommand::FillCircle {
            circle: map_overlays::geometry::Circle {
                center: Pt { x: 1000, y: 2000 },
                radius: PED_RADIUS,
            },
            color: cs.pedestrian,
        },
    );
}

#[test]
fn pedestrian_flags_resolve_color_at_construction() {
    let cs = colors();
    let input = PedestrianInput {
        id: 9,
        pos: Pt { x: 0, y: 0 },
        waiting_for_turn: None,
        preparing_bike: true,
        on_zorder: 0,
    };
    let p = DrawPedestrian::new(&input, &cs);
    let cmds = p.draw(None, false, &cs);
    match &cmds[0] {
        DrawCommand::FillCircle { color, .. } => assert_eq!(*color, cs.pedestrian_preparing_bike),
        other => panic!("unexpected command {:?}", other),
    }
    // An override color bypasses the cached batch entirely.
    let highlight = Color { r: 1, g: 2, b: 3, a: 255 };
    let cmds = p.draw(Some(highlight), false, &cs);
    match &cmds[0] {
        DrawCommand::FillCircle { color, .. } => assert_eq!(*color, highlight),
        other => panic!("unexpected command {:?}", other),
    }
}

#[test]
fn pedestrian_turn_arrow_blinks() {
    let cs = colors();
    let input = PedestrianInput {
        id: 1,
        pos: Pt { x: 500, y: 500 },
        waiting_for_turn: Some(Pt { x: 100, y: 0 }),
        preparing_bike: false,
        on_zorder: 0,
    };
    let p = DrawPedestrian::new(&input, &cs);
    assert_eq!(p.draw(None, false, &cs).len(), 1);
    let blinking = p.draw(None, true, &cs);
    assert_eq!(blinking.len(), 2);
    match &blinking[1] {
        DrawCommand::FillPolygon { poly, color } => {
            assert_eq!(*color, cs.blinker_on);
            assert_eq!(
                poly.points,
                vec![Pt { x: 600, y: 500 }, Pt { x: 400, y: 600 }, Pt { x: 400, y: 400 }],
            );
        },
        other => panic!("unexpected command {:?}", other),
    }
}

#[test]
fn snapshot_types_compose_into_an_app() {
    // The snapshot records are plain values that the host fills in.
    let app = AppSnapshot {
        map: MapSnapshot {
            lanes: vec![],
            roads: vec![],
            intersections: vec![],
            bus_stops: vec![],
            buildings: vec![],
            edits: EditsRec {
                edits_name: String::from("empty"),
                original_lts: vec![],
                reversed_lanes: vec![],
                changed_speed_limits: vec![],
                original_intersections: vec![],
            },
        },
        analytics: Analytics { time: 0, road_thruput: vec![], intersection_thruput: vec![] },
        cs: colors(),
        opts: Options { min_zoom_for_detail: 10 },
    };
    assert_eq!(app.analytics.time, 0);
}
