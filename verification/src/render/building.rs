//! The building entity: geometry built once from static map data, with
//! hit-testing, tooltip text and bounding box derived from the same record.

use crate::geometry::{
    bounding_box, clone_polygon, point_in_polygon, polygon_contains, pt_in_bounds, is_bbox_of,
    Polygon, Pt, Rect, Segment,
};
use crate::color::Color;
use crate::render::DrawCommand;
use crate::text::{spec_decimal, u64_to_string};
use crate::world::{BuildingRec, MapSnapshot};
use vstd::pervasive::unreached;
use vstd::prelude::*;
use vstd::string::StringExecFns;

verus! {

/// The building record with id `id`, searching first to last.
pub open spec fn spec_find_building(bs: Seq<BuildingRec>, id: u64) -> Option<BuildingRec>
    decreases bs.len(),
{
    if bs.len() == 0 {
        Option::None
    } else if bs[0].id == id {
        Option::Some(bs[0])
    } else {
        spec_find_building(bs.drop_first(), id)
    }
}

/// A building ready to draw: the vertex loop and the optional front path,
/// copied once out of the static map record.
#[derive(Clone, Debug, PartialEq)]
pub struct DrawBuilding {
    pub id: u64,
    pub polygon: Polygon,
    pub front_path: Option<Segment>,
}

impl DrawBuilding {
    /// The cached outline.
    pub open spec fn spec_polygon(self) -> Seq<Pt> {
        self.polygon@
    }

    /// The cached front path.
    pub open spec fn spec_front_path(self) -> Option<Segment> {
        self.front_path
    }

    /// The cached geometry is a well-formed polygon.
    pub open spec fn wf(self) -> bool {
        self.polygon.wf()
    }

    /// Copy the drawable geometry out of the static map record.
    pub fn new(bldg: &BuildingRec) -> (r: DrawBuilding)
        requires
            bldg.points@.len() >= 3,
            forall|i: int| 0 <= i < bldg.points@.len() ==> pt_in_bounds(#[trigger] bldg.points@[i]),
        ensures
            r.id == bldg.id,
            r.spec_polygon() == bldg.points@,
            r.spec_front_path() == bldg.front_path,
            r.wf(),
    {
        let polygon = Polygon { points: clone_points(&bldg.points) };
        DrawBuilding { id: bldg.id, polygon, front_path: bldg.front_path }
    }

    /// The draw calls for this building: the front path first (a fixed
    /// walkway color), then the filled outline in the given color. Issues
    /// no mutation: the same commands come back every frame.
    pub fn draw(&self, color: Color) -> (cmds: Vec<DrawCommand>)
        ensures
            cmds@.len() == (if self.spec_front_path() is Some {
                2int
            } else {
                1int
            }),
            self.spec_front_path() matches Some(seg) ==> cmds@[0] == (DrawCommand::Line {
                seg,
                color: Color { r: 0, g: 153, b: 0, a: 255 },
                width: 100,
            }),
            cmds@.last() matches DrawCommand::FillPolygon { poly, color: c } && poly@
                == self.spec_polygon() && c == color,
    {
        let mut cmds: Vec<DrawCommand> = Vec::new();
        if let Some(seg) = self.front_path {
            cmds.push(
                DrawCommand::Line { seg, color: Color { r: 0, g: 153, b: 0, a: 255 }, width: 100 },
            );
        }
        cmds.push(DrawCommand::FillPolygon { poly: clone_polygon(&self.polygon), color });
        cmds
    }

    /// Hit-testing against exactly the outline that is drawn.
    pub fn contains_pt(&self, x: i64, y: i64) -> (r: bool)
        requires
            self.wf(),
            pt_in_bounds(Pt { x, y }),
        ensures
            r == polygon_contains(self.spec_polygon(), Pt { x, y }),
    {
        point_in_polygon(x, y, &self.polygon)
    }

    /// The tooltip: the building's identity and source-map record, then
    /// its free-form tag list.
    pub fn tooltip_lines(&self, map: &MapSnapshot) -> (lines: Vec<String>)
        requires
            spec_find_building(map.buildings@, self.id) is Some,
        ensures
            ({
                let b = spec_find_building(map.buildings@, self.id).unwrap();
                &&& lines@.len() == 1 + b.osm_tags@.len()
                &&& lines@[0]@ == "Building #"@ + spec_decimal(self.id as int)
                    + " (from OSM way "@ + spec_decimal(b.osm_way_id as int) + ")"@
                &&& forall|i: int|
                    0 <= i < b.osm_tags@.len() ==> #[trigger] lines@[i + 1] == b.osm_tags@[i]
            }),
    {
        let b = find_building(&map.buildings, self.id);
        let mut first = String::from_str("Building #");
        let id_text = u64_to_string(self.id);
        first.append(id_text.as_str());
        first.append(" (from OSM way ");
        let way_text = u64_to_string(b.osm_way_id);
        first.append(way_text.as_str());
        first.append(")");
        let mut lines: Vec<String> = Vec::new();
        lines.push(first);
        let mut i: usize = 0;
        while i < b.osm_tags.len()
            invariant
                b == spec_find_building(map.buildings@, self.id).unwrap(),
                0 <= i <= b.osm_tags@.len(),
                lines@.len() == 1 + i,
                lines@[0]@ == "Building #"@ + spec_decimal(self.id as int) + " (from OSM way "@
                    + spec_decimal(b.osm_way_id as int) + ")"@,
                forall|q: int| 0 <= q < i ==> #[trigger] lines@[q + 1] == b.osm_tags@[q],
            decreases b.osm_tags@.len() - i,
        {
            lines.push(b.osm_tags[i].clone());
            i = i + 1;
        }
        lines
    }

    /// The axis-aligned bounding box of the outline, for spatial indexing.
    pub fn get_bbox(&self) -> (r: Rect)
        requires
            self.wf(),
        ensures
            is_bbox_of(r, seq![self.spec_polygon()]),
    {
        let mut polys: Vec<Polygon> = Vec::new();
        polys.push(clone_polygon(&self.polygon));
        let r = bounding_box(&polys);
        proof {
            assert(crate::geometry::polys_view(polys@) =~= seq![self.spec_polygon()]);
        }
        r
    }
}

/// An element-by-element copy of a vertex list.
fn clone_points(points: &Vec<Pt>) -> (r: Vec<Pt>)
    ensures
        r@ == points@,
{
    let mut r: Vec<Pt> = Vec::new();
    let mut i: usize = 0;
    while i < points.len()
        invariant
            0 <= i <= points@.len(),
            r@ == points@.take(i as int),
        decreases points@.len() - i,
    {
        r.push(points[i]);
        proof {
            assert(r@ =~= points@.take(i + 1));
        }
        i = i + 1;
    }
    proof {
        assert(points@.take(points@.len() as int) =~= points@);
    }
    r
}

/// The building record carrying `id`, which the caller has ensured exists.
fn find_building<'a>(bs: &'a Vec<BuildingRec>, id: u64) -> (r: &'a BuildingRec)
    requires
        spec_find_building(bs@, id) is Some,
    ensures
        *r == spec_find_building(bs@, id).unwrap(),
{
    let n: usize = bs.len();
    let mut i: usize = 0;
    proof {
        assert(bs@.skip(0) =~= bs@);
    }
    while i < n
        invariant
            n == bs@.len(),
            0 <= i <= n,
            spec_find_building(bs@, id) is Some,
            spec_find_building(bs@, id) == spec_find_building(bs@.skip(i as int), id),
        decreases n - i,
    {
        proof {
            assert(bs@.skip(i as int)[0] == bs@[i as int]);
            assert(bs@.skip(i as int).drop_first() =~= bs@.skip(i + 1));
        }
        if bs[i].id == id {
            return &bs[i];
        }
        i = i + 1;
    }
    proof {
        assert(bs@.skip(n as int) =~= Seq::<BuildingRec>::empty());
    }
    unreached()
}

} // verus!
