//! Pure, stateless geometry primitives: points, line segments, rectangles,
//! polygons and circles over integer world coordinates, with a ray-crossing
//! point-in-polygon test and axis-aligned bounding-box computation.

use vstd::prelude::*;

verus! {

/// Largest magnitude a coordinate may have. Keeping every coordinate within
/// this bound lets the crossing test multiply coordinate differences without
/// overflowing `i64`.
pub const MAX_COORD: i64 = 1_000_000_000;

/// A point (or vector) in integer world coordinates.
#[derive(Clone, Copy, Debug, PartialEq, Eq, Structural, Hash)]
pub struct Pt {
    pub x: i64,
    pub y: i64,
}

/// A directed line segment, e.g. a building's front path.
#[derive(Clone, Copy, Debug, PartialEq, Eq, Structural, Hash)]
pub struct Segment {
    pub p1: Pt,
    pub p2: Pt,
}

/// An axis-aligned rectangle given by its min and max corners.
#[derive(Clone, Copy, Debug, PartialEq, Eq, Structural, Hash)]
pub struct Rect {
    pub x1: i64,
    pub y1: i64,
    pub x2: i64,
    pub y2: i64,
}

/// An ordered vertex loop. The last point implicitly connects back to the
/// first; the loop need not repeat its first point.
#[derive(Clone, Debug, PartialEq)]
pub struct Polygon {
    pub points: Vec<Pt>,
}

/// A circle in integer world coordinates.
#[derive(Clone, Copy, Debug, PartialEq, Eq, Structural, Hash)]
pub struct Circle {
    pub center: Pt,
    pub radius: i64,
}

pub open spec fn pt_in_bounds(p: Pt) -> bool {
    &&& -MAX_COORD <= p.x <= MAX_COORD
    &&& -MAX_COORD <= p.y <= MAX_COORD
}

impl Polygon {
    pub open spec fn view(self) -> Seq<Pt> {
        self.points@
    }

    /// Well-formed polygons have at least three vertices, all in bounds.
    pub open spec fn wf(self) -> bool {
        &&& self.points@.len() >= 3
        &&& forall|i: int| 0 <= i < self.points@.len() ==> pt_in_bounds(#[trigger] self.points@[i])
    }
}

pub open spec fn rect_contains(r: Rect, p: Pt) -> bool {
    &&& r.x1 <= p.x <= r.x2
    &&& r.y1 <= p.y <= r.y2
}

/// The vertex following vertex `i` along the implicitly closed loop.
pub open spec fn next_vertex(pts: Seq<Pt>, i: int) -> Pt {
    if i + 1 == pts.len() {
        pts[0]
    } else {
        pts[i + 1]
    }
}

/// Whether a rightward horizontal ray from `q` crosses the edge from `a` to
/// `b`. Edges are half-open in `y` (`a.y <= q.y < b.y` or the reverse), which
/// fixes a consistent boundary rule: a ray through a vertex counts the edge
/// leaving that vertex upward exactly once.
pub open spec fn edge_crossed(a: Pt, b: Pt, q: Pt) -> bool {
    if a.y <= q.y < b.y {
        (q.x - a.x) * (b.y - a.y) < (q.y - a.y) * (b.x - a.x)
    } else if b.y <= q.y < a.y {
        (q.x - a.x) * (b.y - a.y) > (q.y - a.y) * (b.x - a.x)
    } else {
        false
    }
}

/// Parity of ray crossings over the first `k` edges of the loop.
pub open spec fn crossings_before(pts: Seq<Pt>, q: Pt, k: int) -> bool
    decreases k,
{
    if k <= 0 {
        false
    } else {
        crossings_before(pts, q, k - 1) != edge_crossed(pts[k - 1], next_vertex(pts, k - 1), q)
    }
}

/// The ray-crossing containment test: `q` is inside when a rightward ray
/// crosses the boundary an odd number of times.
pub open spec fn polygon_contains(pts: Seq<Pt>, q: Pt) -> bool {
    crossings_before(pts, q, pts.len() as int)
}

/// Bounds on a product of two coordinate differences: each factor spans at
/// most twice the coordinate bound, so the product fits comfortably in `i64`.
proof fn lemma_mul_bound(a: int, b: int)
    by (nonlinear_arith)
    requires
        -2_000_000_000 <= a <= 2_000_000_000,
        -2_000_000_000 <= b <= 2_000_000_000,
    ensures
        -4_000_000_000_000_000_000 <= a * b <= 4_000_000_000_000_000_000,
{
}

/// The exact integer form of the edge-crossing test.
fn crossing_test(a: Pt, b: Pt, q: Pt) -> (r: bool)
    requires
        pt_in_bounds(a),
        pt_in_bounds(b),
        pt_in_bounds(q),
    ensures
        r == edge_crossed(a, b, q),
{
    proof {
        lemma_mul_bound(q.x - a.x, b.y - a.y);
        lemma_mul_bound(q.y - a.y, b.x - a.x);
    }
    if a.y <= q.y && q.y < b.y {
        (q.x - a.x) * (b.y - a.y) < (q.y - a.y) * (b.x - a.x)
    } else if b.y <= q.y && q.y < a.y {
        (q.x - a.x) * (b.y - a.y) > (q.y - a.y) * (b.x - a.x)
    } else {
        false
    }
}

/// Standard ray-crossing test against an implicitly closed polygon.
pub fn point_in_polygon(x: i64, y: i64, polygon: &Polygon) -> (r: bool)
    requires
        polygon.wf(),
        pt_in_bounds(Pt { x, y }),
    ensures
        r == polygon_contains(polygon@, Pt { x, y }),
{
    let q = Pt { x, y };
    let n: usize = polygon.points.len();
    let mut inside = false;
    let mut i: usize = 0;
    while i < n
        invariant
            polygon.wf(),
            pt_in_bounds(q),
            n == polygon.points@.len(),
            0 <= i <= n,
            inside == crossings_before(polygon.points@, q, i as int),
        decreases n - i,
    {
        let a = polygon.points[i];
        let b = if i + 1 == n {
            polygon.points[0]
        } else {
            polygon.points[i + 1]
        };
        assert(b == next_vertex(polygon.points@, i as int));
        let crossed: bool = crossing_test(a, b, q);
        inside = inside != crossed;
        i = i + 1;
    }
    inside
}

/// No edge is crossed by a ray from a point strictly below or at-or-above
/// every vertex, so the crossing parity stays even.
proof fn lemma_no_crossings(pts: Seq<Pt>, q: Pt, k: int)
    requires
        0 <= k <= pts.len(),
        (forall|i: int| 0 <= i < pts.len() ==> q.y < #[trigger] pts[i].y) || (forall|i: int|
            0 <= i < pts.len() ==> #[trigger] pts[i].y <= q.y),
    ensures
        !crossings_before(pts, q, k),
    decreases k,
{
    if k > 0 {
        lemma_no_crossings(pts, q, k - 1);
    }
}

/// A query point strictly outside the vertical range of every vertex is
/// outside the polygon: the half of the first testable property that holds
/// of every polygon. (The other half, that the centroid lies inside, fails
/// for non-convex loops such as a thin C shape and is checked on concrete
/// convex polygons in the test suite.)
pub proof fn lemma_outside_vertical_range(pts: Seq<Pt>, q: Pt)
    requires
        (forall|i: int| 0 <= i < pts.len() ==> q.y < #[trigger] pts[i].y) || (forall|i: int|
            0 <= i < pts.len() ==> #[trigger] pts[i].y <= q.y),
    ensures
        !polygon_contains(pts, q),
{
    lemma_no_crossings(pts, q, pts.len() as int);
}

/// The characterization of an axis-aligned bounding box: it contains every
/// vertex of every polygon, and each of its four bounds is attained by some
/// vertex.
pub open spec fn is_bbox_of(r: Rect, polys: Seq<Seq<Pt>>) -> bool {
    &&& forall|i: int, j: int|
        0 <= i < polys.len() && 0 <= j < polys[i].len() ==> rect_contains(r, #[trigger] polys[i][j])
    &&& exists|i: int, j: int|
        0 <= i < polys.len() && 0 <= j < polys[i].len() && (#[trigger] polys[i][j]).x == r.x1
    &&& exists|i: int, j: int|
        0 <= i < polys.len() && 0 <= j < polys[i].len() && (#[trigger] polys[i][j]).x == r.x2
    &&& exists|i: int, j: int|
        0 <= i < polys.len() && 0 <= j < polys[i].len() && (#[trigger] polys[i][j]).y == r.y1
    &&& exists|i: int, j: int|
        0 <= i < polys.len() && 0 <= j < polys[i].len() && (#[trigger] polys[i][j]).y == r.y2
}

pub open spec fn polys_view(polygons: Seq<Polygon>) -> Seq<Seq<Pt>> {
    polygons.map_values(|p: Polygon| p@)
}

/// Componentwise min/max over all vertices of all polygons. The caller must
/// supply at least one polygon; every polygon must be well-formed.
pub fn bounding_box(polygons: &Vec<Polygon>) -> (r: Rect)
    requires
        polygons@.len() > 0,
        forall|i: int| 0 <= i < polygons@.len() ==> (#[trigger] polygons@[i]).wf(),
    ensures
        is_bbox_of(r, polys_view(polygons@)),
        r.x1 <= r.x2,
        r.y1 <= r.y2,
{
    let ghost polys = polys_view(polygons@);
    let first = polygons[0].points[0];
    let mut r = Rect { x1: first.x, y1: first.y, x2: first.x, y2: first.y };
    assert(polys[0][0] == first);
    let mut i: usize = 0;
    while i < polygons.len()
        invariant
            polygons@.len() > 0,
            forall|k: int| 0 <= k < polygons@.len() ==> (#[trigger] polygons@[k]).wf(),
            polys == polys_view(polygons@),
            0 <= i <= polygons@.len(),
            r.x1 <= r.x2,
            r.y1 <= r.y2,
            forall|a: int, b: int|
                0 <= a < i && 0 <= b < polys[a].len() ==> rect_contains(r, #[trigger] polys[a][b]),
            exists|a: int, b: int|
                0 <= a < polys.len() && 0 <= b < polys[a].len() && (#[trigger] polys[a][b]).x
                    == r.x1,
            exists|a: int, b: int|
                0 <= a < polys.len() && 0 <= b < polys[a].len() && (#[trigger] polys[a][b]).x
                    == r.x2,
            exists|a: int, b: int|
                0 <= a < polys.len() && 0 <= b < polys[a].len() && (#[trigger] polys[a][b]).y
                    == r.y1,
            exists|a: int, b: int|
                0 <= a < polys.len() && 0 <= b < polys[a].len() && (#[trigger] polys[a][b]).y
                    == r.y2,
        decreases polygons@.len() - i,
    {
        let poly = &polygons[i];
        let mut j: usize = 0;
        while j < poly.points.len()
            invariant
                polygons@.len() > 0,
                forall|k: int| 0 <= k < polygons@.len() ==> (#[trigger] polygons@[k]).wf(),
                polys == polys_view(polygons@),
                0 <= i < polygons@.len(),
                poly == polygons@[i as int],
                0 <= j <= poly.points@.len(),
                r.x1 <= r.x2,
                r.y1 <= r.y2,
                forall|a: int, b: int|
                    0 <= a < i && 0 <= b < polys[a].len() ==> rect_contains(
                        r,
                        #[trigger] polys[a][b],
                    ),
                forall|b: int| 0 <= b < j ==> rect_contains(r, #[trigger] polys[i as int][b]),
                exists|a: int, b: int|
                    0 <= a < polys.len() && 0 <= b < polys[a].len() && (#[trigger] polys[a][b]).x
                        == r.x1,
                exists|a: int, b: int|
                    0 <= a < polys.len() && 0 <= b < polys[a].len() && (#[trigger] polys[a][b]).x
                        == r.x2,
                exists|a: int, b: int|
                    0 <= a < polys.len() && 0 <= b < polys[a].len() && (#[trigger] polys[a][b]).y
                        == r.y1,
                exists|a: int, b: int|
                    0 <= a < polys.len() && 0 <= b < polys[a].len() && (#[trigger] polys[a][b]).y
                        == r.y2,
            decreases poly.points@.len() - j,
        {
            let p = poly.points[j];
            assert(polys[i as int][j as int] == p);
            if p.x < r.x1 {
                r.x1 = p.x;
            }
            if p.x > r.x2 {
                r.x2 = p.x;
            }
            if p.y < r.y1 {
                r.y1 = p.y;
            }
            if p.y > r.y2 {
                r.y2 = p.y;
            }
            j = j + 1;
        }
        i = i + 1;
    }
    r
}

/// A set of polygons determines its bounding box uniquely: any two
/// rectangles satisfying the characterization are equal.
pub proof fn lemma_bbox_unique(r1: Rect, r2: Rect, polys: Seq<Seq<Pt>>)
    requires
        is_bbox_of(r1, polys),
        is_bbox_of(r2, polys),
    ensures
        r1 == r2,
{
}

/// Adding a polygon that lies entirely inside an existing bounding box
/// leaves the box unchanged.
pub proof fn lemma_bbox_unchanged_by_inner_polygon(r1: Rect, r2: Rect, polys: Seq<Seq<Pt>>, extra: Seq<Pt>)
    requires
        is_bbox_of(r1, polys),
        forall|j: int| 0 <= j < extra.len() ==> rect_contains(r1, #[trigger] extra[j]),
        is_bbox_of(r2, polys.push(extra)),
    ensures
        r2 == r1,
{
    assert forall|i: int, j: int|
        0 <= i < polys.len() && 0 <= j < polys[i].len() implies rect_contains(
        r2,
        #[trigger] polys[i][j],
    ) by {
        assert(polys.push(extra)[i] == polys[i]);
    }
    assert forall|i: int, j: int|
        0 <= i < polys.push(extra).len() && 0 <= j < polys.push(extra)[i].len()
        implies rect_contains(r1, #[trigger] polys.push(extra)[i][j]) by {
        if i < polys.len() {
            assert(polys.push(extra)[i] == polys[i]);
        } else {
            assert(polys.push(extra)[i] == extra);
        }
    }
    let (a1, b1) = choose|a: int, b: int|
        0 <= a < polys.len() && 0 <= b < polys[a].len() && (#[trigger] polys[a][b]).x == r1.x1;
    assert(polys.push(extra)[a1] == polys[a1]);
    let (a2, b2) = choose|a: int, b: int|
        0 <= a < polys.len() && 0 <= b < polys[a].len() && (#[trigger] polys[a][b]).x == r1.x2;
    assert(polys.push(extra)[a2] == polys[a2]);
    let (a3, b3) = choose|a: int, b: int|
        0 <= a < polys.len() && 0 <= b < polys[a].len() && (#[trigger] polys[a][b]).y == r1.y1;
    assert(polys.push(extra)[a3] == polys[a3]);
    let (a4, b4) = choose|a: int, b: int|
        0 <= a < polys.len() && 0 <= b < polys[a].len() && (#[trigger] polys[a][b]).y == r1.y2;
    assert(polys.push(extra)[a4] == polys[a4]);
}

/// Sum of the x coordinates of a vertex sequence.
pub open spec fn sum_x(pts: Seq<Pt>) -> int
    decreases pts.len(),
{
    if pts.len() == 0 {
        0
    } else {
        sum_x(pts.drop_last()) + pts.last().x
    }
}

/// Sum of the y coordinates of a vertex sequence.
pub open spec fn sum_y(pts: Seq<Pt>) -> int
    decreases pts.len(),
{
    if pts.len() == 0 {
        0
    } else {
        sum_y(pts.drop_last()) + pts.last().y
    }
}

impl Polygon {
    /// The arithmetic mean of the vertices. Restricted to non-negative
    /// coordinates so that the truncating machine division agrees with
    /// mathematical floor division.
    pub fn centroid(&self) -> (c: Pt)
        requires
            self.wf(),
            forall|i: int|
                0 <= i < self@.len() ==> (#[trigger] self@[i]).x >= 0 && self@[i].y >= 0,
        ensures
            c.x == sum_x(self@) / self@.len() as int,
            c.y == sum_y(self@) / self@.len() as int,
            0 <= c.x <= MAX_COORD,
            0 <= c.y <= MAX_COORD,
    {
        let n: usize = self.points.len();
        let mut sx: u128 = 0;
        let mut sy: u128 = 0;
        let mut i: usize = 0;
        proof {
            assert(self@.take(0) =~= Seq::<Pt>::empty());
        }
        while i < n
            invariant
                self.wf(),
                forall|k: int|
                    0 <= k < self@.len() ==> (#[trigger] self@[k]).x >= 0 && self@[k].y >= 0,
                n == self@.len(),
                0 <= i <= n,
                sx == sum_x(self@.take(i as int)),
                sy == sum_y(self@.take(i as int)),
                sx <= i * (MAX_COORD as u128),
                sy <= i * (MAX_COORD as u128),
            decreases n - i,
        {
            let p = self.points[i];
            proof {
                assert(self@.take(i + 1).drop_last() =~= self@.take(i as int));
                assert(self@.take(i + 1).last() == self@[i as int]);
                assert((i + 1) * (MAX_COORD as u128) == i * (MAX_COORD as u128) + (
                MAX_COORD as u128)) by (nonlinear_arith);
            }
            sx = sx + (p.x as u128);
            sy = sy + (p.y as u128);
            i = i + 1;
        }
        proof {
            assert(self@.take(n as int) =~= self@);
            lemma_sum_div_bounded(sx as int, n as int);
            lemma_sum_div_bounded(sy as int, n as int);
        }
        let cx: u128 = sx / (n as u128);
        let cy: u128 = sy / (n as u128);
        Pt { x: cx as i64, y: cy as i64 }
    }
}

/// Dividing a sum of `n` values, each at most `MAX_COORD`, by `n` gives a
/// quotient at most `MAX_COORD`.
proof fn lemma_sum_div_bounded(s: int, n: int)
    requires
        n >= 1,
        0 <= s <= n * (MAX_COORD as int),
    ensures
        0 <= s / n <= MAX_COORD as int,
{
    assert(s / n >= 0) by (nonlinear_arith)
        requires n >= 1 && s >= 0;
    assert(s / n <= MAX_COORD as int) by (nonlinear_arith)
        requires n >= 1 && s <= n * (MAX_COORD as int);
}

impl Circle {
    /// Well-formed circles have a positive radius and stay within the
    /// coordinate bounds with their whole extent.
    pub open spec fn wf(self) -> bool {
        &&& 0 < self.radius <= MAX_COORD
        &&& -MAX_COORD <= self.center.x - self.radius
        &&& self.center.x + self.radius <= MAX_COORD
        &&& -MAX_COORD <= self.center.y - self.radius
        &&& self.center.y + self.radius <= MAX_COORD
    }

    /// Closed-ball membership: squared distance to the center at most the
    /// squared radius.
    pub open spec fn spec_contains(self, q: Pt) -> bool {
        (q.x - self.center.x) * (q.x - self.center.x) + (q.y - self.center.y) * (q.y
            - self.center.y) <= self.radius * self.radius
    }

    /// Exact closed-form distance check, more precise than testing the
    /// polygonal approximation of the circle.
    pub fn contains_pt(&self, x: i64, y: i64) -> (r: bool)
        requires
            self.wf(),
            pt_in_bounds(Pt { x, y }),
        ensures
            r == self.spec_contains(Pt { x, y }),
    {
        let dx: i64 = x - self.center.x;
        let dy: i64 = y - self.center.y;
        proof {
            lemma_mul_bound(dx as int, dx as int);
            lemma_mul_bound(dy as int, dy as int);
            lemma_mul_bound(self.radius as int, self.radius as int);
        }
        dx * dx + dy * dy <= self.radius * self.radius
    }

    /// The eight vertices of the octagon approximating the circle: the four
    /// axis extremes interleaved with four diagonal points at roughly
    /// `radius / sqrt(2)` from the center.
    pub open spec fn octagon(self) -> Seq<Pt> {
        let cx: int = self.center.x as int;
        let cy: int = self.center.y as int;
        let r: int = self.radius as int;
        let k: int = (r * 29) / 41;
        seq![
            Pt { x: (cx + r) as i64, y: cy as i64 },
            Pt { x: (cx + k) as i64, y: (cy + k) as i64 },
            Pt { x: cx as i64, y: (cy + r) as i64 },
            Pt { x: (cx - k) as i64, y: (cy + k) as i64 },
            Pt { x: (cx - r) as i64, y: cy as i64 },
            Pt { x: (cx - k) as i64, y: (cy - k) as i64 },
            Pt { x: cx as i64, y: (cy - r) as i64 },
            Pt { x: (cx + k) as i64, y: (cy - k) as i64 },
        ]
    }

    /// The octagonal outline used when the circle is drawn or hit-tested as
    /// a polygon.
    pub fn to_polygon(&self) -> (p: Polygon)
        requires
            self.wf(),
        ensures
            p@ == self.octagon(),
            p.wf(),
    {
        let cx: i64 = self.center.x;
        let cy: i64 = self.center.y;
        let r: i64 = self.radius;
        let k: i64 = (r * 29) / 41;
        assert(0 <= (r * 29) / 41 <= r) by (nonlinear_arith)
            requires 0 < r;
        let mut points: Vec<Pt> = Vec::new();
        points.push(Pt { x: cx + r, y: cy });
        points.push(Pt { x: cx + k, y: cy + k });
        points.push(Pt { x: cx, y: cy + r });
        points.push(Pt { x: cx - k, y: cy + k });
        points.push(Pt { x: cx - r, y: cy });
        points.push(Pt { x: cx - k, y: cy - k });
        points.push(Pt { x: cx, y: cy - r });
        points.push(Pt { x: cx + k, y: cy - k });
        let p = Polygon { points };
        proof {
            assert(p@ =~= self.octagon());
        }
        p
    }
}

/// An element-by-element copy of a polygon.
pub fn clone_polygon(p: &Polygon) -> (r: Polygon)
    ensures
        r@ == p@,
{
    let mut points: Vec<Pt> = Vec::new();
    let mut i: usize = 0;
    while i < p.points.len()
        invariant
            0 <= i <= p.points@.len(),
            points@ == p.points@.take(i as int),
        decreases p.points@.len() - i,
    {
        points.push(p.points[i]);
        proof {
            assert(points@ =~= p.points@.take(i + 1));
        }
        i = i + 1;
    }
    proof {
        assert(p.points@.take(p.points@.len() as int) =~= p.points@);
    }
    Polygon { points }
}

} // verus!
