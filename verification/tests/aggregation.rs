use map_overlays::classify::{
    classify_intersection_throughput, classify_road_throughput, seed_bike_lanes, IntersectionRec,
    LaneRec, RoadRec, ThruputEvent, TripMode,
};
use map_overlays::counter::Counter;
use map_overlays::ranking::ranked_entities;

fn lane(id: u64, parent: u64, src_i: u64, is_biking: bool, length: u64) -> LaneRec {
    LaneRec { id, parent, src_i, is_biking, is_bus: false, length }
}

fn bike_event(key: u64, count: u64) -> ThruputEvent {
    ThruputEvent { key, mode: TripMode::Bike, count }
}

#[test]
fn preseeded_key_reads_zero_but_is_present() {
    let mut c = Counter::new();
    c.add(7, 0);
    assert_eq!(c.get(7), 0);
    assert!(c.contains_key(7));
    assert!(!c.contains_key(8));
    assert_eq!(c.get(8), 0);
}

#[test]
fn counter_accumulates_per_key() {
    let mut c = Counter::new();
    c.add(1, 10);
    c.add(2, 3);
    c.add(1, 5);
    assert_eq!(c.get(1), 15);
    assert_eq!(c.get(2), 3);
    assert_eq!(c.len(), 2);
}

#[test]
fn ranking_six_counts_into_three_tiers_is_deterministic() {
    // Counts [0, 0, 1, 5, 5, 9] over keys 1..=6, ranked into 3 tiers.
    let mut c = Counter::new();
    c.add(1, 0);
    c.add(2, 0);
    c.add(3, 1);
    c.add(4, 5);
    c.add(5, 5);
    c.add(6, 9);
    let r = ranked_entities(&c, 3);
    assert_eq!(
        r,
        vec![(1, 0), (2, 0), (3, 1), (4, 1), (5, 2), (6, 2)],
    );

    // The same observations in another insertion order rank identically.
    let mut c2 = Counter::new();
    c2.add(6, 9);
    c2.add(5, 5);
    c2.add(4, 5);
    c2.add(3, 1);
    c2.add(2, 0);
    c2.add(1, 0);
    assert_eq!(ranked_entities(&c2, 3), r);
}

#[test]
fn two_pass_classification_requires_road_pass_first() {
    // Road A (id 1) carries a dedicated lane, road B (id 2) does not, and
    // intersection I (id 7) connects both.
    let lanes = vec![lane(10, 1, 7, true, 100)];
    let roads = vec![
        RoadRec { id: 1, has_bike_lane: true },
        RoadRec { id: 2, has_bike_lane: false },
    ];
    let ints = vec![IntersectionRec { id: 7, roads: vec![1, 2] }];
    let int_events = vec![bike_event(7, 4)];

    // Correct order: the road counter is populated before the
    // intersection pass reads it, so I classifies "on".
    let mut on = Counter::new();
    let mut ints_on = Counter::new();
    let mut ints_off = Counter::new();
    seed_bike_lanes(&lanes, &mut on, &mut ints_on);
    let mut off = Counter::new();
    classify_road_throughput(&Vec::new(), &roads, TripMode::Bike, &mut on, &mut off);
    classify_intersection_throughput(
        &int_events,
        &ints,
        TripMode::Bike,
        &on,
        &mut ints_on,
        &mut ints_off,
    );
    assert_eq!(ints_on.get(7), 4);
    assert_eq!(ints_off.get(7), 0);

    // Misordered: run the intersection pass against the still-empty road
    // counter, and I lands in the wrong bucket.
    let empty = Counter::new();
    let mut wrong_on = Counter::new();
    let mut wrong_off = Counter::new();
    classify_intersection_throughput(
        &int_events,
        &ints,
        TripMode::Bike,
        &empty,
        &mut wrong_on,
        &mut wrong_off,
    );
    assert_eq!(wrong_on.get(7), 0);
    assert_eq!(wrong_off.get(7), 4);
}

#[test]
fn end_to_end_bike_flags_split_roads_into_buckets() {
    // Three roads with bike-lane flags [true, false, true] and bike-mode
    // throughput [10, 20, 5].
    let lanes = vec![lane(100, 0, 50, true, 300), lane(102, 2, 52, true, 500)];
    let roads = vec![
        RoadRec { id: 0, has_bike_lane: true },
        RoadRec { id: 1, has_bike_lane: false },
        RoadRec { id: 2, has_bike_lane: true },
    ];
    let events = vec![bike_event(0, 10), bike_event(1, 20), bike_event(2, 5)];

    let mut on = Counter::new();
    let mut ints_on = Counter::new();
    let (num_lanes, total_dist) = seed_bike_lanes(&lanes, &mut on, &mut ints_on);
    assert_eq!(num_lanes, 2);
    assert_eq!(total_dist, 800);

    let mut off = Counter::new();
    classify_road_throughput(&events, &roads, TripMode::Bike, &mut on, &mut off);

    // The on-lane bucket accumulates road0:10 and road2:5; the off-lane
    // bucket accumulates road1:20 alone.
    assert_eq!(on.get(0), 10);
    assert_eq!(on.get(2), 5);
    assert!(!on.contains_key(1));
    assert_eq!(off.get(1), 20);
    assert!(!off.contains_key(0));
    assert!(!off.contains_key(2));

    // Ranked into 3 tiers, road1 sits in the highest "off" tier alone.
    let off_ranked = ranked_entities(&off, 3);
    assert_eq!(off_ranked, vec![(1, 2)]);

    // The on bucket ranks road2 (5 trips) below road0 (10 trips).
    let on_ranked = ranked_entities(&on, 3);
    assert_eq!(on_ranked, vec![(2, 1), (0, 2)]);
}

#[test]
fn non_bike_events_are_filtered_out() {
    let roads = vec![RoadRec { id: 0, has_bike_lane: true }];
    let events = vec![
        ThruputEvent { key: 0, mode: TripMode::Drive, count: 9 },
        bike_event(0, 2),
        ThruputEvent { key: 0, mode: TripMode::Walk, count: 3 },
    ];
    let mut on = Counter::new();
    let mut off = Counter::new();
    classify_road_throughput(&events, &roads, TripMode::Bike, &mut on, &mut off);
    assert_eq!(on.get(0), 2);
    assert_eq!(off.get(0), 0);
}
