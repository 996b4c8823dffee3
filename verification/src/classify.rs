//! The analytics aggregation pipeline: plain records copied out of the map
//! and simulation collaborators, and the two-pass classification of
//! throughput observations into per-category counters.
//!
//! The passes are order-sensitive and must not be fused or reordered: roads
//! are classified from their static attributes first, and intersections are
//! then classified by whether any connected road is already present in the
//! road "on" counter. Running the intersection pass against an unpopulated
//! road counter files every intersection in the "off" category.

use crate::counter::Counter;
use vstd::prelude::*;

verus! {

/// The travel mode an observation was made for.
#[derive(Clone, Copy, Debug, PartialEq, Eq, Structural, Hash)]
pub enum TripMode {
    Walk,
    Bike,
    Transit,
    Drive,
}

/// A lane copied out of the map: its parent road, its source intersection,
/// its category flags and its length in world units.
#[derive(Clone, Debug)]
pub struct LaneRec {
    pub id: u64,
    pub parent: u64,
    pub src_i: u64,
    pub is_biking: bool,
    pub is_bus: bool,
    pub length: u64,
}

/// A road copied out of the map, with the attribute the classifier reads:
/// whether either direction carries a dedicated bike lane.
#[derive(Clone, Debug)]
pub struct RoadRec {
    pub id: u64,
    pub has_bike_lane: bool,
}

/// An intersection copied out of the map, with its connected roads.
#[derive(Clone, Debug)]
pub struct IntersectionRec {
    pub id: u64,
    pub roads: Vec<u64>,
}

/// One cumulative throughput observation: entity key, travel mode, count.
#[derive(Clone, Copy, Debug)]
pub struct ThruputEvent {
    pub key: u64,
    pub mode: TripMode,
    pub count: u64,
}

/// Whether some road record carries `id` with a dedicated bike lane.
pub open spec fn spec_road_has_bike(roads: Seq<RoadRec>, id: u64) -> bool {
    exists|i: int| 0 <= i < roads.len() && (#[trigger] roads[i]).id == id && roads[i].has_bike_lane
}

/// Whether some road record carries `id` at all.
pub open spec fn spec_road_known(roads: Seq<RoadRec>, id: u64) -> bool {
    exists|i: int| 0 <= i < roads.len() && (#[trigger] roads[i]).id == id
}

/// Whether some intersection record carries `id` at all.
pub open spec fn spec_int_known(ints: Seq<IntersectionRec>, id: u64) -> bool {
    exists|i: int| 0 <= i < ints.len() && (#[trigger] ints[i]).id == id
}

/// Whether the intersection `id` has a connected road already present in
/// the primary road counter: the secondary-pass predicate.
pub open spec fn spec_connected_on(ints: Seq<IntersectionRec>, primary: Counter, id: u64) -> bool {
    exists|i: int, j: int|
        0 <= i < ints.len() && (#[trigger] ints[i]).id == id && 0 <= j < ints[i].roads@.len()
            && primary.spec_has_key(#[trigger] ints[i].roads@[j])
}

/// Total observed count for `k` in mode `mode` over an event sequence.
pub open spec fn mode_total(events: Seq<ThruputEvent>, mode: TripMode, k: u64) -> int
    decreases events.len(),
{
    if events.len() == 0 {
        0
    } else {
        mode_total(events.drop_last(), mode, k) + if events.last().mode == mode
            && events.last().key == k {
            events.last().count as int
        } else {
            0
        }
    }
}

/// Whether any event records mode `mode` for key `k`.
pub open spec fn has_mode_event(events: Seq<ThruputEvent>, mode: TripMode, k: u64) -> bool {
    exists|i: int|
        0 <= i < events.len() && (#[trigger] events[i]).mode == mode && events[i].key == k
}

/// A prefix's mode total never exceeds the whole sequence's.
proof fn lemma_mode_total_prefix(events: Seq<ThruputEvent>, mode: TripMode, k: u64, i: int)
    requires
        0 <= i <= events.len(),
    ensures
        0 <= mode_total(events.take(i), mode, k) <= mode_total(events, mode, k),
    decreases events.len(),
{
    lemma_mode_total_nonneg(events.take(i), mode, k);
    if i < events.len() {
        lemma_mode_total_prefix(events.drop_last(), mode, k, i);
        assert(events.drop_last().take(i) =~= events.take(i));
        lemma_mode_total_nonneg(events, mode, k);
    } else {
        assert(events.take(i) =~= events);
    }
}

/// Mode totals are sums of non-negative counts.
proof fn lemma_mode_total_nonneg(events: Seq<ThruputEvent>, mode: TripMode, k: u64)
    ensures
        0 <= mode_total(events, mode, k),
    decreases events.len(),
{
    if events.len() > 0 {
        lemma_mode_total_nonneg(events.drop_last(), mode, k);
    }
}

/// Extending an event prefix by one event adds that event's contribution.
proof fn lemma_mode_total_step(events: Seq<ThruputEvent>, mode: TripMode, k: u64, i: int)
    requires
        0 <= i < events.len(),
    ensures
        mode_total(events.take(i + 1), mode, k) == mode_total(events.take(i), mode, k) + (
        if events[i].mode == mode && events[i].key == k {
            events[i].count as int
        } else {
            0
        }),
{
    assert(events.take(i + 1).drop_last() =~= events.take(i));
    assert(events.take(i + 1).last() == events[i]);
}

/// Look up whether the road `id` has a dedicated bike lane.
fn road_has_bike(roads: &Vec<RoadRec>, id: u64) -> (r: Option<bool>)
    requires
        distinct_road_ids(roads@),
    ensures
        r is Some <==> spec_road_known(roads@, id),
        (r == Some(true)) == spec_road_has_bike(roads@, id),
{
    let mut i: usize = 0;
    while i < roads.len()
        invariant
            distinct_road_ids(roads@),
            0 <= i <= roads@.len(),
            forall|j: int| 0 <= j < i ==> (#[trigger] roads@[j]).id != id,
        decreases roads@.len() - i,
    {
        if roads[i].id == id {
            proof {
                if roads@[i as int].has_bike_lane {
                } else {
                    if spec_road_has_bike(roads@, id) {
                        let w = choose|w: int|
                            0 <= w < roads@.len() && (#[trigger] roads@[w]).id == id
                                && roads@[w].has_bike_lane;
                        assert(w == i);
                    }
                }
            }
            return Some(roads[i].has_bike_lane);
        }
        i = i + 1;
    }
    proof {
        if spec_road_known(roads@, id) {
            let w = choose|w: int| 0 <= w < roads@.len() && (#[trigger] roads@[w]).id == id;
        }
    }
    None
}

/// Road ids are pairwise distinct.
pub open spec fn distinct_road_ids(roads: Seq<RoadRec>) -> bool {
    forall|i: int, j: int| 0 <= i < j < roads.len() ==> (#[trigger] roads[i]).id != (
    #[trigger] roads[j]).id
}

/// Intersection ids are pairwise distinct.
pub open spec fn distinct_int_ids(ints: Seq<IntersectionRec>) -> bool {
    forall|i: int, j: int| 0 <= i < j < ints.len() ==> (#[trigger] ints[i]).id != (
    #[trigger] ints[j]).id
}

/// Whether some biking lane has parent road `k`.
pub open spec fn spec_is_bike_parent(lanes: Seq<LaneRec>, k: u64) -> bool {
    exists|i: int| 0 <= i < lanes.len() && (#[trigger] lanes[i]).is_biking && lanes[i].parent == k
}

/// Whether some biking lane starts at intersection `k`.
pub open spec fn spec_is_bike_src(lanes: Seq<LaneRec>, k: u64) -> bool {
    exists|i: int| 0 <= i < lanes.len() && (#[trigger] lanes[i]).is_biking && lanes[i].src_i == k
}

/// How many lanes are biking lanes.
pub open spec fn bike_lane_count(lanes: Seq<LaneRec>) -> int
    decreases lanes.len(),
{
    if lanes.len() == 0 {
        0
    } else {
        bike_lane_count(lanes.drop_last()) + if lanes.last().is_biking {
            1int
        } else {
            0int
        }
    }
}

/// Total length of all biking lanes.
pub open spec fn bike_len_total(lanes: Seq<LaneRec>) -> int
    decreases lanes.len(),
{
    if lanes.len() == 0 {
        0
    } else {
        bike_len_total(lanes.drop_last()) + if lanes.last().is_biking {
            lanes.last().length as int
        } else {
            0int
        }
    }
}

/// Lane lengths are non-negative, so prefix length totals never exceed the
/// whole sequence's.
proof fn lemma_bike_len_prefix(lanes: Seq<LaneRec>, i: int)
    requires
        0 <= i <= lanes.len(),
    ensures
        0 <= bike_len_total(lanes.take(i)) <= bike_len_total(lanes),
        0 <= bike_lane_count(lanes.take(i)) <= i,
    decreases lanes.len(),
{
    if i < lanes.len() {
        lemma_bike_len_prefix(lanes.drop_last(), i);
        assert(lanes.drop_last().take(i) =~= lanes.take(i));
    } else {
        assert(lanes.take(i) =~= lanes);
        if lanes.len() > 0 {
            lemma_bike_len_prefix(lanes.drop_last(), i - 1);
            assert(lanes.drop_last().take(i - 1) =~= lanes.drop_last());
        }
    }
}

/// Pre-seed the road and intersection "on" counters with every entity a
/// biking lane touches, at amount zero, so those entities always render in
/// the lowest tier even without any observed events. Returns the number of
/// biking lanes and their total length.
pub fn seed_bike_lanes(lanes: &Vec<LaneRec>, on_roads: &mut Counter, on_intersections: &mut Counter)
    -> (stats: (usize, u64))
    requires
        old(on_roads).wf(),
        old(on_intersections).wf(),
        bike_len_total(lanes@) <= u64::MAX,
    ensures
        final(on_roads).wf(),
        final(on_intersections).wf(),
        forall|k: u64| final(on_roads).spec_get(k) == old(on_roads).spec_get(k),
        forall|k: u64| final(on_intersections).spec_get(k) == old(on_intersections).spec_get(k),
        forall|k: u64|
            final(on_roads).spec_has_key(k) == (old(on_roads).spec_has_key(k)
                || spec_is_bike_parent(lanes@, k)),
        forall|k: u64|
            final(on_intersections).spec_has_key(k) == (old(on_intersections).spec_has_key(k)
                || spec_is_bike_src(lanes@, k)),
        stats.0 == bike_lane_count(lanes@),
        stats.1 == bike_len_total(lanes@),
{
    let mut num_lanes: usize = 0;
    let mut total_dist: u64 = 0;
    let mut i: usize = 0;
    proof {
        assert(lanes@.take(0) =~= Seq::<LaneRec>::empty());
    }
    while i < lanes.len()
        invariant
            old(on_roads).wf(),
            old(on_intersections).wf(),
            bike_len_total(lanes@) <= u64::MAX,
            0 <= i <= lanes@.len(),
            on_roads.wf(),
            on_intersections.wf(),
            forall|k: u64| on_roads.spec_get(k) == old(on_roads).spec_get(k),
            forall|k: u64| on_intersections.spec_get(k) == old(on_intersections).spec_get(k),
            forall|k: u64|
                on_roads.spec_has_key(k) == (old(on_roads).spec_has_key(k) || spec_is_bike_parent(
                    lanes@.take(i as int),
                    k,
                )),
            forall|k: u64|
                on_intersections.spec_has_key(k) == (old(on_intersections).spec_has_key(k)
                    || spec_is_bike_src(lanes@.take(i as int), k)),
            num_lanes as int == bike_lane_count(lanes@.take(i as int)),
            num_lanes <= i,
            total_dist as int == bike_len_total(lanes@.take(i as int)),
        decreases lanes@.len() - i,
    {
        let l = &lanes[i];
        let ghost t0 = lanes@.take(i as int);
        let ghost t1 = lanes@.take(i + 1);
        proof {
            assert(t1 =~= t0.push(lanes@[i as int]));
            assert(t1.drop_last() =~= t0);
            assert(t1.last() == lanes@[i as int]);
            lemma_bike_len_prefix(lanes@, i + 1);
        }
        if l.is_biking {
            on_roads.add(l.parent, 0);
            on_intersections.add(l.src_i, 0);
            num_lanes = num_lanes + 1;
            total_dist = total_dist + l.length;
        }
        proof {
            assert forall|k: u64|
                spec_is_bike_parent(t1, k) == (spec_is_bike_parent(t0, k) || (
                lanes@[i as int].is_biking && lanes@[i as int].parent == k)) by {
                if spec_is_bike_parent(t0, k) {
                    let w = choose|w: int|
                        0 <= w < t0.len() && (#[trigger] t0[w]).is_biking && t0[w].parent == k;
                    assert(t1[w] == t0[w]);
                }
                assert(t1[t1.len() - 1] == lanes@[i as int]);
                if spec_is_bike_parent(t1, k) {
                    let w = choose|w: int|
                        0 <= w < t1.len() && (#[trigger] t1[w]).is_biking && t1[w].parent == k;
                    if w < t0.len() {
                        assert(t0[w] == t1[w]);
                    }
                }
            }
            assert forall|k: u64|
                spec_is_bike_src(t1, k) == (spec_is_bike_src(t0, k) || (
                lanes@[i as int].is_biking && lanes@[i as int].src_i == k)) by {
                if spec_is_bike_src(t0, k) {
                    let w = choose|w: int|
                        0 <= w < t0.len() && (#[trigger] t0[w]).is_biking && t0[w].src_i == k;
                    assert(t1[w] == t0[w]);
                }
                assert(t1[t1.len() - 1] == lanes@[i as int]);
                if spec_is_bike_src(t1, k) {
                    let w = choose|w: int|
                        0 <= w < t1.len() && (#[trigger] t1[w]).is_biking && t1[w].src_i == k;
                    if w < t0.len() {
                        assert(t0[w] == t1[w]);
                    }
                }
            }
        }
        i = i + 1;
    }
    proof {
        assert(lanes@.take(lanes@.len() as int) =~= lanes@);
    }
    (num_lanes, total_dist)
}

/// Extending an event prefix by one event either adds that event's mode
/// match or leaves the match set unchanged.
proof fn lemma_has_mode_event_step(events: Seq<ThruputEvent>, mode: TripMode, k: u64, i: int)
    requires
        0 <= i < events.len(),
    ensures
        has_mode_event(events.take(i + 1), mode, k) == (has_mode_event(events.take(i), mode, k)
            || (events[i].mode == mode && events[i].key == k)),
{
    let t0 = events.take(i);
    let t1 = events.take(i + 1);
    if has_mode_event(t0, mode, k) {
        let w = choose|w: int|
            0 <= w < t0.len() && (#[trigger] t0[w]).mode == mode && t0[w].key == k;
        assert(t1[w] == t0[w]);
    }
    assert(t1[t1.len() - 1] == events[i]);
    if has_mode_event(t1, mode, k) {
        let w = choose|w: int|
            0 <= w < t1.len() && (#[trigger] t1[w]).mode == mode && t1[w].key == k;
        if w < t0.len() {
            assert(t0[w] == t1[w]);
        }
    }
}

/// No matching event means a zero total.
proof fn lemma_mode_total_zero(events: Seq<ThruputEvent>, mode: TripMode, k: u64)
    requires
        !has_mode_event(events, mode, k),
    ensures
        mode_total(events, mode, k) == 0,
    decreases events.len(),
{
    if events.len() > 0 {
        assert forall|w: int|
            0 <= w < events.drop_last().len() implies !((#[trigger] events.drop_last()[w]).mode
            == mode && events.drop_last()[w].key == k) by {
            assert(events.drop_last()[w] == events[w]);
        }
        lemma_mode_total_zero(events.drop_last(), mode, k);
        assert(events[events.len() - 1] == events.last());
    }
}

/// The primary pass: stream road throughput observations, filter them to
/// the mode of interest, and accumulate each road's count in the "on"
/// counter when the road carries a dedicated bike lane, in the "off"
/// counter otherwise.
pub fn classify_road_throughput(
    events: &Vec<ThruputEvent>,
    roads: &Vec<RoadRec>,
    mode: TripMode,
    on: &mut Counter,
    off: &mut Counter,
)
    requires
        distinct_road_ids(roads@),
        old(on).wf(),
        old(off).wf(),
        forall|i: int|
            0 <= i < events@.len() && (#[trigger] events@[i]).mode == mode ==> spec_road_known(
                roads@,
                events@[i].key,
            ),
        forall|k: u64| old(on).spec_get(k) + mode_total(events@, mode, k) <= u64::MAX,
        forall|k: u64| old(off).spec_get(k) + mode_total(events@, mode, k) <= u64::MAX,
    ensures
        final(on).wf(),
        final(off).wf(),
        forall|k: u64|
            final(on).spec_get(k) == old(on).spec_get(k) + (if spec_road_has_bike(roads@, k) {
                mode_total(events@, mode, k)
            } else {
                0
            }),
        forall|k: u64|
            final(off).spec_get(k) == old(off).spec_get(k) + (if spec_road_has_bike(roads@, k) {
                0
            } else {
                mode_total(events@, mode, k)
            }),
        forall|k: u64|
            final(on).spec_has_key(k) == (old(on).spec_has_key(k) || (spec_road_has_bike(roads@, k)
                && has_mode_event(events@, mode, k))),
        forall|k: u64|
            final(off).spec_has_key(k) == (old(off).spec_has_key(k) || (!spec_road_has_bike(
                roads@,
                k,
            ) && has_mode_event(events@, mode, k))),
{
    let mut i: usize = 0;
    proof {
        assert(events@.take(0) =~= Seq::<ThruputEvent>::empty());
    }
    while i < events.len()
        invariant
            distinct_road_ids(roads@),
            old(on).wf(),
            old(off).wf(),
            forall|q: int|
                0 <= q < events@.len() && (#[trigger] events@[q]).mode == mode ==> spec_road_known(
                    roads@,
                    events@[q].key,
                ),
            forall|k: u64| old(on).spec_get(k) + mode_total(events@, mode, k) <= u64::MAX,
            forall|k: u64| old(off).spec_get(k) + mode_total(events@, mode, k) <= u64::MAX,
            0 <= i <= events@.len(),
            on.wf(),
            off.wf(),
            forall|k: u64|
                on.spec_get(k) == old(on).spec_get(k) + (if spec_road_has_bike(roads@, k) {
                    mode_total(events@.take(i as int), mode, k)
                } else {
                    0
                }),
            forall|k: u64|
                off.spec_get(k) == old(off).spec_get(k) + (if spec_road_has_bike(roads@, k) {
                    0
                } else {
                    mode_total(events@.take(i as int), mode, k)
                }),
            forall|k: u64|
                on.spec_has_key(k) == (old(on).spec_has_key(k) || (spec_road_has_bike(roads@, k)
                    && has_mode_event(events@.take(i as int), mode, k))),
            forall|k: u64|
                off.spec_has_key(k) == (old(off).spec_has_key(k) || (!spec_road_has_bike(roads@, k)
                    && has_mode_event(events@.take(i as int), mode, k))),
        decreases events@.len() - i,
    {
        let ev = events[i];
        proof {
            assert forall|k: u64|
                mode_total(events@.take(i + 1), mode, k) == mode_total(
                    events@.take(i as int),
                    mode,
                    k,
                ) + (if events@[i as int].mode == mode && events@[i as int].key == k {
                    events@[i as int].count as int
                } else {
                    0
                }) by {
                lemma_mode_total_step(events@, mode, k, i as int);
            }
            assert forall|k: u64|
                has_mode_event(events@.take(i + 1), mode, k) == (has_mode_event(
                    events@.take(i as int),
                    mode,
                    k,
                ) || (events@[i as int].mode == mode && events@[i as int].key == k)) by {
                lemma_has_mode_event_step(events@, mode, k, i as int);
            }
            assert forall|k: u64|
                mode_total(events@.take(i + 1), mode, k) <= mode_total(events@, mode, k) by {
                lemma_mode_total_prefix(events@, mode, k, i + 1);
            }
        }
        if ev.mode == mode {
            let hb = road_has_bike(roads, ev.key);
            proof {
                assert(events@[i as int].mode == mode);
                assert(spec_road_known(roads@, ev.key));
            }
            if let Some(bike) = hb {
                if bike {
                    on.add(ev.key, ev.count);
                } else {
                    off.add(ev.key, ev.count);
                }
            }
        }
        i = i + 1;
    }
    proof {
        assert(events@.take(events@.len() as int) =~= events@);
    }
}

/// Whether intersection `id` exists and has a connected road present in
/// the primary counter.
fn intersection_connected_on(ints: &Vec<IntersectionRec>, primary: &Counter, id: u64) -> (r: Option<
    bool,
>)
    requires
        distinct_int_ids(ints@),
    ensures
        r is Some <==> spec_int_known(ints@, id),
        (r == Some(true)) == spec_connected_on(ints@, *primary, id),
{
    let n: usize = ints.len();
    let mut i: usize = 0;
    while i < n
        invariant
            distinct_int_ids(ints@),
            n == ints@.len(),
            0 <= i <= n,
            forall|j: int| 0 <= j < i ==> (#[trigger] ints@[j]).id != id,
        decreases n - i,
    {
        if ints[i].id == id {
            let rec = &ints[i];
            let m: usize = rec.roads.len();
            let mut j: usize = 0;
            while j < m
                invariant
                    distinct_int_ids(ints@),
                    0 <= i < ints@.len(),
                    rec == ints@[i as int],
                    ints@[i as int].id == id,
                    m == rec.roads@.len(),
                    0 <= j <= m,
                    forall|q: int| 0 <= q < j ==> !primary.spec_has_key(#[trigger] rec.roads@[q]),
                decreases m - j,
            {
                if primary.contains_key(rec.roads[j]) {
                    return Some(true);
                }
                j = j + 1;
            }
            proof {
                if spec_connected_on(ints@, *primary, id) {
                    let (w, q) = choose|w: int, q: int|
                        0 <= w < ints@.len() && (#[trigger] ints@[w]).id == id && 0 <= q
                            < ints@[w].roads@.len() && primary.spec_has_key(
                            #[trigger] ints@[w].roads@[q],
                        );
                    assert(w == i);
                }
            }
            return Some(false);
        }
        i = i + 1;
    }
    proof {
        if spec_int_known(ints@, id) {
            let w = choose|w: int| 0 <= w < ints@.len() && (#[trigger] ints@[w]).id == id;
        }
        if spec_connected_on(ints@, *primary, id) {
            let (w, q) = choose|w: int, q: int|
                0 <= w < ints@.len() && (#[trigger] ints@[w]).id == id && 0 <= q
                    < ints@[w].roads@.len() && primary.spec_has_key(#[trigger] ints@[w].roads@[q]);
        }
    }
    None
}

/// The secondary pass, which must run only after the primary road pass has
/// fully populated `primary`: an intersection's throughput files in the
/// "on" counter exactly when some connected road is already present in the
/// primary road counter. Run against an unpopulated primary counter (the
/// misordering this design rules out), no intersection can classify "on".
pub fn classify_intersection_throughput(
    events: &Vec<ThruputEvent>,
    ints: &Vec<IntersectionRec>,
    mode: TripMode,
    primary: &Counter,
    on: &mut Counter,
    off: &mut Counter,
)
    requires
        distinct_int_ids(ints@),
        old(on).wf(),
        old(off).wf(),
        forall|i: int|
            0 <= i < events@.len() && (#[trigger] events@[i]).mode == mode ==> spec_int_known(
                ints@,
                events@[i].key,
            ),
        forall|k: u64| old(on).spec_get(k) + mode_total(events@, mode, k) <= u64::MAX,
        forall|k: u64| old(off).spec_get(k) + mode_total(events@, mode, k) <= u64::MAX,
    ensures
        final(on).wf(),
        final(off).wf(),
        forall|k: u64|
            final(on).spec_get(k) == old(on).spec_get(k) + (if spec_connected_on(
                ints@,
                *primary,
                k,
            ) {
                mode_total(events@, mode, k)
            } else {
                0
            }),
        forall|k: u64|
            final(off).spec_get(k) == old(off).spec_get(k) + (if spec_connected_on(
                ints@,
                *primary,
                k,
            ) {
                0
            } else {
                mode_total(events@, mode, k)
            }),
        forall|k: u64|
            final(on).spec_has_key(k) == (old(on).spec_has_key(k) || (spec_connected_on(
                ints@,
                *primary,
                k,
            ) && has_mode_event(events@, mode, k))),
        forall|k: u64|
            final(off).spec_has_key(k) == (old(off).spec_has_key(k) || (!spec_connected_on(
                ints@,
                *primary,
                k,
            ) && has_mode_event(events@, mode, k))),
{
    let mut i: usize = 0;
    proof {
        assert(events@.take(0) =~= Seq::<ThruputEvent>::empty());
    }
    while i < events.len()
        invariant
            distinct_int_ids(ints@),
            old(on).wf(),
            old(off).wf(),
            forall|q: int|
                0 <= q < events@.len() && (#[trigger] events@[q]).mode == mode ==> spec_int_known(
                    ints@,
                    events@[q].key,
                ),
            forall|k: u64| old(on).spec_get(k) + mode_total(events@, mode, k) <= u64::MAX,
            forall|k: u64| old(off).spec_get(k) + mode_total(events@, mode, k) <= u64::MAX,
            0 <= i <= events@.len(),
            on.wf(),
            off.wf(),
            forall|k: u64|
                on.spec_get(k) == old(on).spec_get(k) + (if spec_connected_on(ints@, *primary, k) {
                    mode_total(events@.take(i as int), mode, k)
                } else {
                    0
                }),
            forall|k: u64|
                off.spec_get(k) == old(off).spec_get(k) + (if spec_connected_on(
                    ints@,
                    *primary,
                    k,
                ) {
                    0
                } else {
                    mode_total(events@.take(i as int), mode, k)
                }),
            forall|k: u64|
                on.spec_has_key(k) == (old(on).spec_has_key(k) || (spec_connected_on(
                    ints@,
                    *primary,
                    k,
                ) && has_mode_event(events@.take(i as int), mode, k))),
            forall|k: u64|
                off.spec_has_key(k) == (old(off).spec_has_key(k) || (!spec_connected_on(
                    ints@,
                    *primary,
                    k,
                ) && has_mode_event(events@.take(i as int), mode, k))),
        decreases events@.len() - i,
    {
        let ev = events[i];
        proof {
            assert forall|k: u64|
                mode_total(events@.take(i + 1), mode, k) == mode_total(
                    events@.take(i as int),
                    mode,
                    k,
                ) + (if events@[i as int].mode == mode && events@[i as int].key == k {
                    events@[i as int].count as int
                } else {
                    0
                }) by {
                lemma_mode_total_step(events@, mode, k, i as int);
            }
            assert forall|k: u64|
                has_mode_event(events@.take(i + 1), mode, k) == (has_mode_event(
                    events@.take(i as int),
                    mode,
                    k,
                ) || (events@[i as int].mode == mode && events@[i as int].key == k)) by {
                lemma_has_mode_event_step(events@, mode, k, i as int);
            }
            assert forall|k: u64|
                mode_total(events@.take(i + 1), mode, k) <= mode_total(events@, mode, k) by {
                lemma_mode_total_prefix(events@, mode, k, i + 1);
            }
        }
        if ev.mode == mode {
            let conn = intersection_connected_on(ints, primary, ev.key);
            proof {
                assert(events@[i as int].mode == mode);
                assert(spec_int_known(ints@, ev.key));
            }
            if let Some(is_on) = conn {
                if is_on {
                    on.add(ev.key, ev.count);
                } else {
                    off.add(ev.key, ev.count);
                }
            }
        }
        i = i + 1;
    }
    proof {
        assert(events@.take(events@.len() as int) =~= events@);
    }
}

/// An intersection with a connected road already recorded in the primary
/// road counter classifies "on": with the road pass run first, presence in
/// the primary counter is exactly what the secondary predicate reads.
pub proof fn lemma_intersection_classified_on(
    ints: Seq<IntersectionRec>,
    primary: Counter,
    k: u64,
    i: int,
    j: int,
)
    requires
        0 <= i < ints.len(),
        ints[i].id == k,
        0 <= j < ints[i].roads@.len(),
        primary.spec_has_key(ints[i].roads@[j]),
    ensures
        spec_connected_on(ints, primary, k),
{
}

/// Misordering the passes misclassifies: against a primary counter that
/// holds no keys yet, no intersection can classify "on", whatever its
/// connected roads.
pub proof fn lemma_misordered_classification_off(ints: Seq<IntersectionRec>, primary: Counter, k: u64)
    requires
        forall|r: u64| !primary.spec_has_key(r),
    ensures
        !spec_connected_on(ints, primary, k),
{
}

} // verus!
