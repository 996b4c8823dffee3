use map_overlays::geometry::{bounding_box, point_in_polygon, Circle, Polygon, Pt, Rect};

fn poly(pts: &[(i64, i64)]) -> Polygon {
    Polygon { points: pts.iter().map(|&(x, y)| Pt { x, y }).collect() }
}

#[test]
fn centroid_of_convex_polygons_is_inside() {
    let tri = poly(&[(0, 0), (10, 0), (0, 9)]);
    let c = tri.centroid();
    assert_eq!(c, Pt { x: 3, y: 3 });
    assert!(point_in_polygon(c.x, c.y, &tri));

    let square = poly(&[(0, 0), (10, 0), (10, 10), (0, 10)]);
    let c = square.centroid();
    assert_eq!(c, Pt { x: 5, y: 5 });
    assert!(point_in_polygon(c.x, c.y, &square));
}

#[test]
fn points_far_outside_bounding_box_are_outside() {
    let square = poly(&[(0, 0), (10, 0), (10, 10), (0, 10)]);
    assert!(!point_in_polygon(5, 1000, &square));
    assert!(!point_in_polygon(5, -1000, &square));
    assert!(!point_in_polygon(1000, 5, &square));
    assert!(!point_in_polygon(-1000, 5, &square));
}

#[test]
fn boundary_rule_is_half_open_in_y() {
    // Edges are half-open: a point on the bottom edge counts as inside, a
    // point on the top edge as outside, consistently.
    let square = poly(&[(0, 0), (10, 0), (10, 10), (0, 10)]);
    assert!(point_in_polygon(5, 0, &square));
    assert!(!point_in_polygon(5, 10, &square));
}

#[test]
fn bounding_box_is_componentwise_min_max() {
    let a = poly(&[(1, 2), (7, -3), (4, 9)]);
    let b = poly(&[(-5, 0), (2, 2), (0, 8)]);
    let r = bounding_box(&vec![a, b]);
    assert_eq!(r, Rect { x1: -5, y1: -3, x2: 7, y2: 9 });
}

#[test]
fn polygon_inside_existing_box_leaves_box_unchanged() {
    let a = poly(&[(1, 2), (7, -3), (4, 9)]);
    let b = poly(&[(-5, 0), (2, 2), (0, 8)]);
    let before = bounding_box(&vec![a.clone(), b.clone()]);
    let inner = poly(&[(0, 0), (1, 1), (2, 0)]);
    let after = bounding_box(&vec![a, b, inner]);
    assert_eq!(before, after);
}

#[test]
fn circle_contains_by_exact_distance() {
    let c = Circle { center: Pt { x: 100, y: 100 }, radius: 10 };
    assert!(c.contains_pt(100, 100));
    assert!(c.contains_pt(110, 100));
    assert!(c.contains_pt(107, 107));
    assert!(!c.contains_pt(108, 108));
    assert!(!c.contains_pt(111, 100));
}

#[test]
fn circle_octagon_has_eight_vertices_around_center() {
    let c = Circle { center: Pt { x: 0, y: 0 }, radius: 41 };
    let p = c.to_polygon();
    assert_eq!(p.points.len(), 8);
    assert_eq!(p.points[0], Pt { x: 41, y: 0 });
    assert_eq!(p.points[1], Pt { x: 29, y: 29 });
    assert_eq!(p.points[2], Pt { x: 0, y: 41 });
    assert_eq!(p.points[6], Pt { x: 0, y: -41 });
}
