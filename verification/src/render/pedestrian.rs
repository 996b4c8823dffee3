//! The pedestrian entity: geometry rebuilt per simulation snapshot as a
//! circle at the reported position, with an optional turn arrow when the
//! pedestrian waits at a signal, and a cached default batch whose color is
//! resolved from the snapshot flags at construction time.

use crate::color::Color;
use crate::geometry::{Circle, Polygon, Pt, MAX_COORD};
use crate::render::{DrawCommand, ID};
use crate::world::ColorConfig;
use vstd::prelude::*;

verus! {

/// The standard lane thickness in world units; pedestrian radius is a
/// fixed quarter of it.
pub const LANE_THICKNESS: i64 = 250;

/// A pedestrian's radius: a quarter lane thickness.
pub const PED_RADIUS: i64 = 62;

/// One pedestrian's per-frame snapshot from the simulation: its position,
/// an optional direction vector toward a turn it waits for, its behavior
/// flags, and the z-order of its current logical location, looked up by
/// the snapshot producer.
#[derive(Clone, Copy, Debug, PartialEq, Eq, Structural, Hash)]
pub struct PedestrianInput {
    pub id: u64,
    pub pos: Pt,
    pub waiting_for_turn: Option<Pt>,
    pub preparing_bike: bool,
    pub on_zorder: i64,
}

/// Snapshot bounds: the position leaves room for the circle and the turn
/// arrow, and the turn direction vector is short.
pub open spec fn input_wf(input: PedestrianInput) -> bool {
    &&& -MAX_COORD + 2100 <= input.pos.x <= MAX_COORD - 2100
    &&& -MAX_COORD + 2100 <= input.pos.y <= MAX_COORD - 2100
    &&& match input.waiting_for_turn {
        Some(d) => -1000 <= d.x <= 1000 && -1000 <= d.y <= 1000,
        None => true,
    }
}

/// The arrow polygon for a turn in direction `d`: the tip one step ahead
/// of the position, the base corners one step behind, offset sideways by
/// the perpendicular of `d`, symmetrically around the position.
pub open spec fn spec_arrow(pos: Pt, d: Pt) -> Seq<Pt> {
    seq![
        Pt { x: (pos.x + d.x) as i64, y: (pos.y + d.y) as i64 },
        Pt { x: (pos.x - d.x - d.y) as i64, y: (pos.y - d.y + d.x) as i64 },
        Pt { x: (pos.x - d.x + d.y) as i64, y: (pos.y - d.y - d.x) as i64 },
    ]
}

/// A pedestrian ready to draw, rebuilt from each snapshot.
#[derive(Clone, Debug, PartialEq)]
pub struct DrawPedestrian {
    pub id: u64,
    pub circle: Circle,
    pub turn_arrow: Option<Polygon>,
    pub zorder: i64,
    pub draw_default: Vec<DrawCommand>,
}

impl DrawPedestrian {
    /// The hit-test circle.
    pub open spec fn spec_circle(self) -> Circle {
        self.circle
    }

    /// The cached turn arrow, present while the pedestrian waits to turn.
    pub open spec fn spec_turn_arrow(self) -> Option<Polygon> {
        self.turn_arrow
    }

    /// The cached default batch.
    pub open spec fn spec_draw_default(self) -> Seq<DrawCommand> {
        self.draw_default@
    }

    /// The cached geometry is well-formed and the default batch is the
    /// single cached circle fill.
    pub open spec fn wf(self) -> bool {
        &&& self.circle.wf()
        &&& self.draw_default@.len() == 1
        &&& (self.draw_default@[0] matches DrawCommand::FillCircle { circle: c2, color: _ } && c2
            == self.circle)
    }

    /// Build the frame's geometry from the snapshot: a circle of a fixed
    /// fraction of the lane thickness, the turn arrow when one is waited
    /// for, and the default batch in the color the snapshot flags select.
    pub fn new(input: &PedestrianInput, cs: &ColorConfig) -> (r: DrawPedestrian)
        requires
            input_wf(*input),
        ensures
            r.id == input.id,
            r.spec_circle() == (Circle { center: input.pos, radius: PED_RADIUS }),
            r.wf(),
            r.spec_turn_arrow() matches Some(p) <==> input.waiting_for_turn is Some,
            match input.waiting_for_turn {
                Some(d) => r.spec_turn_arrow().unwrap()@ == spec_arrow(input.pos, d),
                None => r.spec_turn_arrow() is None,
            },
            r.spec_zorder() == input.on_zorder,
            r.spec_draw_default() == seq![
                DrawCommand::FillCircle {
                    circle: Circle { center: input.pos, radius: PED_RADIUS },
                    color: if input.preparing_bike {
                        cs.pedestrian_preparing_bike
                    } else {
                        cs.pedestrian
                    },
                },
            ],
    {
        let radius: i64 = PED_RADIUS;
        let turn_arrow: Option<Polygon> = if let Some(d) = input.waiting_for_turn {
            let mut points: Vec<Pt> = Vec::new();
            points.push(Pt { x: input.pos.x + d.x, y: input.pos.y + d.y });
            points.push(Pt { x: input.pos.x - d.x - d.y, y: input.pos.y - d.y + d.x });
            points.push(Pt { x: input.pos.x - d.x + d.y, y: input.pos.y - d.y - d.x });
            let p = Polygon { points };
            proof {
                assert(p@ =~= spec_arrow(input.pos, d));
            }
            Some(p)
        } else {
            None
        };
        let circle = Circle { center: input.pos, radius };
        let color = if input.preparing_bike {
            cs.pedestrian_preparing_bike
        } else {
            cs.pedestrian
        };
        let mut draw_default: Vec<DrawCommand> = Vec::new();
        draw_default.push(DrawCommand::FillCircle { circle, color });
        proof {
            assert(draw_default@ =~= seq![DrawCommand::FillCircle { circle, color }]);
        }
        let r = DrawPedestrian {
            id: input.id,
            circle,
            turn_arrow,
            zorder: input.on_zorder,
            draw_default,
        };
        proof {
            assert(r.draw_default@ == seq![
                DrawCommand::FillCircle { circle: r.circle, color },
            ]);
        }
        r
    }

    /// The stable identity, under the pedestrian kind.
    pub fn get_id(&self) -> (r: ID)
        ensures
            r == ID::Pedestrian(self.id),
    {
        ID::Pedestrian(self.id)
    }

    /// The draw calls for this frame: with an override color (a selection
    /// highlight), flat geometry in only that color, bypassing the cached
    /// batch; otherwise the cached batch. The turn arrow blinks: it is
    /// appended only while the blinker phase is on.
    pub fn draw(&self, override_color: Option<Color>, blinkers_on: bool, cs: &ColorConfig) -> (cmds:
        Vec<DrawCommand>)
        requires
            self.wf(),
        ensures
            ({
                let base = match override_color {
                    Some(c) => seq![
                        DrawCommand::FillCircle { circle: self.spec_circle(), color: c },
                    ],
                    None => self.spec_draw_default(),
                };
                let arrow = self.spec_turn_arrow() is Some && blinkers_on;
                &&& cmds@.len() == base.len() + (if arrow {
                    1int
                } else {
                    0int
                })
                &&& forall|i: int| 0 <= i < base.len() ==> #[trigger] cmds@[i] == base[i]
                &&& arrow ==> (cmds@.last() matches DrawCommand::FillPolygon { poly, color: c }
                    && poly@ == self.spec_turn_arrow().unwrap()@ && c == cs.blinker_on)
            }),
    {
        let mut cmds: Vec<DrawCommand> = Vec::new();
        if let Some(c) = override_color {
            cmds.push(DrawCommand::FillCircle { circle: self.circle, color: c });
        } else {
            match &self.draw_default[0] {
                DrawCommand::FillCircle { circle: _, color } => {
                    cmds.push(DrawCommand::FillCircle { circle: self.circle, color: *color });
                },
                _ => {
                    proof {
                        assert(false);
                    }
                },
            }
        }
        if let Some(p) = &self.turn_arrow {
            if blinkers_on {
                cmds.push(
                    DrawCommand::FillPolygon {
                        poly: crate::geometry::clone_polygon(p),
                        color: cs.blinker_on,
                    },
                );
            }
        }
        cmds
    }

    /// The outline used for rendering and polygon-based hit-testing: the
    /// octagonal approximation of the circle, identical across calls.
    pub fn get_outline(&self) -> (p: Polygon)
        requires
            self.wf(),
        ensures
            p@ == self.spec_circle().octagon(),
            p.wf(),
    {
        self.circle.to_polygon()
    }

    /// The compositor's depth key, derived from the entity's current
    /// logical location when the snapshot was taken. Entities of this kind
    /// tie-break among themselves by their stable id, which keeps the sort
    /// deterministic.
    pub open spec fn spec_zorder(self) -> int {
        self.zorder as int
    }

    /// The compositor's depth key.
    pub fn get_zorder(&self) -> (z: i64)
        ensures
            z as int == self.spec_zorder(),
    {
        self.zorder
    }

    /// Precise hit-testing by the closed-form circle distance check,
    /// overriding the polygonal outline test.
    pub fn contains_pt(&self, x: i64, y: i64) -> (r: bool)
        requires
            self.wf(),
            crate::geometry::pt_in_bounds(Pt { x, y }),
        ensures
            r == self.spec_circle().spec_contains(Pt { x, y }),
    {
        self.circle.contains_pt(x, y)
    }
}

} // verus!
