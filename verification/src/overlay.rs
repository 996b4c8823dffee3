//! The overlay builder: accumulates per-entity color assignments (ranked
//! from counters, or from a fixed named-category mapping) and builds the two
//! cached render batches, coarse for the unzoomed/minimap view and fine for
//! the zoomed view, plus the legend describing the colors.

use crate::color::{Color, Gradient};
use crate::counter::Counter;
use crate::ranking::{pair_order, ranked_colors, spec_ranked_colors};
use vstd::prelude::*;

verus! {

/// A reference to a map entity an overlay colors.
#[derive(Clone, Copy, Debug, PartialEq, Eq, Structural, Hash)]
pub enum EntityRef {
    Road(u64),
    Intersection(u64),
    Lane(u64),
    BusStop(u64),
    Building(u64),
}

/// The geometric resolution a batch was built for.
#[derive(Clone, Copy, Debug, PartialEq, Eq, Structural, Hash)]
pub enum Detail {
    Coarse,
    Fine,
}

/// A cached render batch: which entities to fill with which colors, at one
/// resolution. Rebuilt wholesale, never mutated in place.
#[derive(Clone, Debug, PartialEq)]
pub struct Batch {
    pub detail: Detail,
    pub fills: Vec<(EntityRef, Color)>,
}

/// The legend widget data: one labeled color per category or gradient end.
#[derive(Clone, Debug, PartialEq)]
pub struct Legend {
    pub entries: Vec<(String, Color)>,
}

/// A discrete overlay was asked to color an entity under a category name
/// that its configuration never declared.
#[derive(Clone, Copy, Debug, PartialEq, Eq, Structural, Hash)]
pub enum LayerError {
    UnknownCategory,
}

/// Road keys joined with their colors.
pub open spec fn road_fills(s: Seq<(u64, Color)>) -> Seq<(EntityRef, Color)> {
    s.map_values(|p: (u64, Color)| (EntityRef::Road(p.0), p.1))
}

/// Intersection keys joined with their colors.
pub open spec fn intersection_fills(s: Seq<(u64, Color)>) -> Seq<(EntityRef, Color)> {
    s.map_values(|p: (u64, Color)| (EntityRef::Intersection(p.0), p.1))
}

/// The fills a ranked counter contributes for road entities.
pub open spec fn spec_ranked_road_fills(c: Counter, g: Gradient, tiers: int) -> Seq<
    (EntityRef, Color),
> {
    road_fills(spec_ranked_colors(c@.sort_by(pair_order()), g, tiers))
}

/// The fills a ranked counter contributes for intersection entities.
pub open spec fn spec_ranked_intersection_fills(c: Counter, g: Gradient, tiers: int) -> Seq<
    (EntityRef, Color),
> {
    intersection_fills(spec_ranked_colors(c@.sort_by(pair_order()), g, tiers))
}

/// Builder for a network overlay colored by ranked counters. Accumulates
/// fills; `build` consumes it into the two cached batches.
pub struct ColorNetwork {
    pub fills: Vec<(EntityRef, Color)>,
}

impl ColorNetwork {
    pub fn new() -> (r: ColorNetwork)
        ensures
            r.fills@ == Seq::<(EntityRef, Color)>::empty(),
    {
        ColorNetwork { fills: Vec::new() }
    }

    /// Append every road of the counter, colored by its rank tier.
    pub fn ranked_roads(&mut self, counter: &Counter, g: &Gradient, num_tiers: usize)
        requires
            1 <= num_tiers,
        ensures
            final(self).fills@ == old(self).fills@ + spec_ranked_road_fills(
                *counter,
                *g,
                num_tiers as int,
            ),
    {
        let colored = ranked_colors(counter, g, num_tiers);
        let ghost base = self.fills@;
        let mut i: usize = 0;
        while i < colored.len()
            invariant
                colored@ == spec_ranked_colors(counter@.sort_by(pair_order()), *g, num_tiers as int),
                0 <= i <= colored@.len(),
                self.fills@.len() == base.len() + i,
                forall|q: int| 0 <= q < base.len() ==> #[trigger] self.fills@[q] == base[q],
                forall|q: int|
                    0 <= q < i ==> #[trigger] self.fills@[base.len() + q] == (EntityRef::Road(
                        colored@[q].0,
                    ), colored@[q].1),
            decreases colored@.len() - i,
        {
            let (k, c) = colored[i];
            self.fills.push((EntityRef::Road(k), c));
            i = i + 1;
        }
        proof {
            let ghost mapped = spec_ranked_road_fills(*counter, *g, num_tiers as int);
            assert(mapped.len() == colored@.len());
            assert forall|q: int|
                0 <= q < colored@.len() implies mapped[q] == (EntityRef::Road(colored@[q].0),
            colored@[q].1) by {
                assert(mapped[q] == road_fills(colored@)[q]);
            }
            assert forall|ii: int|
                0 <= ii < self.fills@.len() implies self.fills@[ii] == (base + mapped)[ii] by {
                if ii >= base.len() {
                    let q = ii - base.len();
                    assert(self.fills@[base.len() + q] == (EntityRef::Road(colored@[q].0),
                    colored@[q].1));
                }
            }
            assert(self.fills@ =~= base + mapped);
        }
    }

    /// Append every intersection of the counter, colored by its rank tier.
    pub fn ranked_intersections(&mut self, counter: &Counter, g: &Gradient, num_tiers: usize)
        requires
            1 <= num_tiers,
        ensures
            final(self).fills@ == old(self).fills@ + spec_ranked_intersection_fills(
                *counter,
                *g,
                num_tiers as int,
            ),
    {
        let colored = ranked_colors(counter, g, num_tiers);
        let ghost base = self.fills@;
        let mut i: usize = 0;
        while i < colored.len()
            invariant
                colored@ == spec_ranked_colors(counter@.sort_by(pair_order()), *g, num_tiers as int),
                0 <= i <= colored@.len(),
                self.fills@.len() == base.len() + i,
                forall|q: int| 0 <= q < base.len() ==> #[trigger] self.fills@[q] == base[q],
                forall|q: int|
                    0 <= q < i ==> #[trigger] self.fills@[base.len() + q]
                        == (EntityRef::Intersection(colored@[q].0), colored@[q].1),
            decreases colored@.len() - i,
        {
            let (k, c) = colored[i];
            self.fills.push((EntityRef::Intersection(k), c));
            i = i + 1;
        }
        proof {
            let ghost mapped = spec_ranked_intersection_fills(*counter, *g, num_tiers as int);
            assert(mapped.len() == colored@.len());
            assert forall|q: int|
                0 <= q < colored@.len() implies mapped[q] == (EntityRef::Intersection(
                colored@[q].0,
            ), colored@[q].1) by {
                assert(mapped[q] == intersection_fills(colored@)[q]);
            }
            assert forall|ii: int|
                0 <= ii < self.fills@.len() implies self.fills@[ii] == (base + mapped)[ii] by {
                if ii >= base.len() {
                    let q = ii - base.len();
                    assert(self.fills@[base.len() + q] == (EntityRef::Intersection(
                        colored@[q].0,
                    ), colored@[q].1));
                }
            }
            assert(self.fills@ =~= base + mapped);
        }
    }

    /// Consume the accumulated fills into the coarse and fine batches. A
    /// terminal, one-shot operation: the builder is moved away and can take
    /// no further classification calls.
    pub fn build(self) -> (r: (Batch, Batch))
        ensures
            r.0.detail == Detail::Coarse,
            r.1.detail == Detail::Fine,
            r.0.fills@ == self.fills@,
            r.1.fills@ == self.fills@,
    {
        let copy = copy_fills(&self.fills);
        (Batch { detail: Detail::Coarse, fills: copy }, Batch { detail: Detail::Fine, fills: self.fills })
    }
}

/// An element-by-element copy of a fill list.
fn copy_fills(fills: &Vec<(EntityRef, Color)>) -> (r: Vec<(EntityRef, Color)>)
    ensures
        r@ == fills@,
{
    let mut r: Vec<(EntityRef, Color)> = Vec::new();
    let mut i: usize = 0;
    while i < fills.len()
        invariant
            0 <= i <= fills@.len(),
            r@ == fills@.take(i as int),
        decreases fills@.len() - i,
    {
        r.push(fills[i]);
        proof {
            assert(r@ =~= fills@.take(i + 1));
        }
        i = i + 1;
    }
    proof {
        assert(fills@.take(fills@.len() as int) =~= fills@);
    }
    r
}

/// The color declared for a category name, searching first to last.
pub open spec fn spec_cat_color(cats: Seq<(String, Color)>, name: Seq<char>) -> Option<Color>
    decreases cats.len(),
{
    if cats.len() == 0 {
        Option::None
    } else if cats[0].0@ == name {
        Option::Some(cats[0].1)
    } else {
        spec_cat_color(cats.drop_first(), name)
    }
}

/// Builder for a discrete overlay: a fixed, named-category-to-color
/// mapping. Under strict classification an entity offered with an
/// undeclared category name is a configuration error, surfaced as
/// `LayerError::UnknownCategory` rather than silently defaulted.
pub struct ColorDiscrete {
    pub categories: Vec<(String, Color)>,
    pub fills: Vec<(EntityRef, Color)>,
}

impl ColorDiscrete {
    pub fn new(categories: Vec<(String, Color)>) -> (r: ColorDiscrete)
        ensures
            r.categories@ == categories@,
            r.fills@ == Seq::<(EntityRef, Color)>::empty(),
    {
        ColorDiscrete { categories, fills: Vec::new() }
    }

    /// The declared color for `name`, if any.
    fn lookup(&self, name: &String) -> (r: Option<Color>)
        ensures
            r == spec_cat_color(self.categories@, name@),
    {
        let n: usize = self.categories.len();
        let mut i: usize = 0;
        proof {
            assert(self.categories@.skip(0) =~= self.categories@);
        }
        while i < n
            invariant
                n == self.categories@.len(),
                0 <= i <= n,
                spec_cat_color(self.categories@, name@) == spec_cat_color(
                    self.categories@.skip(i as int),
                    name@,
                ),
            decreases n - i,
        {
            proof {
                assert(self.categories@.skip(i as int)[0] == self.categories@[i as int]);
                assert(self.categories@.skip(i as int).drop_first() =~= self.categories@.skip(
                    i + 1,
                ));
            }
            if self.categories[i].0 == *name {
                return Some(self.categories[i].1);
            }
            i = i + 1;
        }
        proof {
            assert(self.categories@.skip(n as int) =~= Seq::<(String, Color)>::empty());
        }
        None
    }

    /// Color one entity under a declared category, or report the missing
    /// category.
    pub fn add_entity(&mut self, e: EntityRef, category: &String) -> (r: Result<(), LayerError>)
        ensures
            final(self).categories@ == old(self).categories@,
            match spec_cat_color(old(self).categories@, category@) {
                Option::Some(c) => r is Ok && final(self).fills@ == old(self).fills@.push((e, c)),
                Option::None => r == Result::<(), LayerError>::Err(LayerError::UnknownCategory)
                    && final(self).fills@ == old(self).fills@,
            },
    {
        match self.lookup(category) {
            Some(c) => {
                self.fills.push((e, c));
                Ok(())
            },
            None => Err(LayerError::UnknownCategory),
        }
    }

    /// Color a lane.
    pub fn add_l(&mut self, l: u64, category: &String) -> (r: Result<(), LayerError>)
        ensures
            final(self).categories@ == old(self).categories@,
            match spec_cat_color(old(self).categories@, category@) {
                Option::Some(c) => r is Ok && final(self).fills@ == old(self).fills@.push(
                    (EntityRef::Lane(l), c),
                ),
                Option::None => r == Result::<(), LayerError>::Err(LayerError::UnknownCategory)
                    && final(self).fills@ == old(self).fills@,
            },
    {
        self.add_entity(EntityRef::Lane(l), category)
    }

    /// Color a road.
    pub fn add_r(&mut self, road: u64, category: &String) -> (r: Result<(), LayerError>)
        ensures
            final(self).categories@ == old(self).categories@,
            match spec_cat_color(old(self).categories@, category@) {
                Option::Some(c) => r is Ok && final(self).fills@ == old(self).fills@.push(
                    (EntityRef::Road(road), c),
                ),
                Option::None => r == Result::<(), LayerError>::Err(LayerError::UnknownCategory)
                    && final(self).fills@ == old(self).fills@,
            },
    {
        self.add_entity(EntityRef::Road(road), category)
    }

    /// Color an intersection.
    pub fn add_i(&mut self, i: u64, category: &String) -> (r: Result<(), LayerError>)
        ensures
            final(self).categories@ == old(self).categories@,
            match spec_cat_color(old(self).categories@, category@) {
                Option::Some(c) => r is Ok && final(self).fills@ == old(self).fills@.push(
                    (EntityRef::Intersection(i), c),
                ),
                Option::None => r == Result::<(), LayerError>::Err(LayerError::UnknownCategory)
                    && final(self).fills@ == old(self).fills@,
            },
    {
        self.add_entity(EntityRef::Intersection(i), category)
    }

    /// Color a bus stop.
    pub fn add_bs(&mut self, bs: u64, category: &String) -> (r: Result<(), LayerError>)
        ensures
            final(self).categories@ == old(self).categories@,
            match spec_cat_color(old(self).categories@, category@) {
                Option::Some(c) => r is Ok && final(self).fills@ == old(self).fills@.push(
                    (EntityRef::BusStop(bs), c),
                ),
                Option::None => r == Result::<(), LayerError>::Err(LayerError::UnknownCategory)
                    && final(self).fills@ == old(self).fills@,
            },
    {
        self.add_entity(EntityRef::BusStop(bs), category)
    }

    /// Color a building.
    pub fn add_b(&mut self, b: u64, category: &String) -> (r: Result<(), LayerError>)
        ensures
            final(self).categories@ == old(self).categories@,
            match spec_cat_color(old(self).categories@, category@) {
                Option::Some(c) => r is Ok && final(self).fills@ == old(self).fills@.push(
                    (EntityRef::Building(b), c),
                ),
                Option::None => r == Result::<(), LayerError>::Err(LayerError::UnknownCategory)
                    && final(self).fills@ == old(self).fills@,
            },
    {
        self.add_entity(EntityRef::Building(b), category)
    }

    /// Consume the accumulated fills into the coarse and fine batches and
    /// the legend naming each declared category.
    pub fn build(self) -> (r: (Batch, Batch, Legend))
        ensures
            r.0.detail == Detail::Coarse,
            r.1.detail == Detail::Fine,
            r.0.fills@ == self.fills@,
            r.1.fills@ == self.fills@,
            r.2.entries@ == self.categories@,
    {
        let copy = copy_fills(&self.fills);
        (
            Batch { detail: Detail::Coarse, fills: copy },
            Batch { detail: Detail::Fine, fills: self.fills },
            Legend { entries: self.categories },
        )
    }
}

} // verus!
