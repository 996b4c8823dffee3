//! Ranking counters into discrete color tiers: entities are sorted by
//! (count, key) with a stable, deterministic order, then split into
//! near-equal buckets counted down from the top, the lowest bucket
//! absorbing the remainder. Each bucket index is a tier of the gradient
//! legend.

use crate::color::{spec_sample, Color, Gradient};
use crate::counter::Counter;
use vstd::prelude::*;
use vstd::relations::total_ordering;
use vstd::seq_lib::lemma_sorted_unique;
use vstd::relations::sorted_by;

verus! {

/// Ascending order on (key, count) pairs: primarily by count, ties broken
/// by key, so that equal counts still rank deterministically.
pub open spec fn pair_leq(a: (u64, u64), b: (u64, u64)) -> bool {
    a.1 < b.1 || (a.1 == b.1 && a.0 <= b.0)
}

/// The pair order as a first-class relation, for vstd's sorting theory.
pub open spec fn pair_order() -> spec_fn((u64, u64), (u64, u64)) -> bool {
    |a: (u64, u64), b: (u64, u64)| pair_leq(a, b)
}

/// The (count, key) order is a total order.
pub proof fn lemma_pair_order_total()
    ensures
        total_ordering(pair_order()),
{
}

/// Executable form of the pair order.
fn pair_le(a: (u64, u64), b: (u64, u64)) -> (r: bool)
    ensures
        r == pair_leq(a, b),
{
    a.1 < b.1 || (a.1 == b.1 && a.0 <= b.0)
}

/// Insertion sort, pinned to the unique sorted permutation of the input.
pub fn sort_pairs(input: &Vec<(u64, u64)>) -> (out: Vec<(u64, u64)>)
    ensures
        out@ == input@.sort_by(pair_order()),
        sorted_by(out@, pair_order()),
        out@.len() == input@.len(),
{
    broadcast use vstd::seq_lib::group_seq_properties;

    let mut out: Vec<(u64, u64)> = Vec::new();
    let mut i: usize = 0;
    proof {
        assert(input@.take(0) =~= Seq::<(u64, u64)>::empty());
        assert(out@.to_multiset() =~= input@.take(0).to_multiset());
    }
    while i < input.len()
        invariant
            0 <= i <= input@.len(),
            sorted_by(out@, pair_order()),
            out@.to_multiset() == input@.take(i as int).to_multiset(),
            out@.len() == i,
        decreases input@.len() - i,
    {
        let e = input[i];
        let mut j: usize = 0;
        while j < out.len() && pair_le(out[j], e)
            invariant
                0 <= j <= out@.len(),
                forall|q: int| 0 <= q < j ==> pair_leq(#[trigger] out@[q], e),
            decreases out@.len() - j,
        {
            j = j + 1;
        }
        let ghost pre = out@;
        out.insert(j, e);
        proof {
            broadcast use vstd::seq_lib::to_multiset_insert;

            lemma_sorted_insert(pre, j as int, e);
            assert(input@.take(i + 1) =~= input@.take(i as int).push(input@[i as int]));
            assert(input@.take(i + 1).to_multiset() == input@.take(
                i as int,
            ).to_multiset().insert(e)) by {
                broadcast use vstd::seq_lib::to_multiset_build;

            }
        }
        i = i + 1;
    }
    proof {
        assert(input@.take(input@.len() as int) =~= input@);
        lemma_pair_order_total();
        input@.lemma_sort_by_ensures(pair_order());
        lemma_sorted_unique(out@, input@.sort_by(pair_order()), pair_order());
    }
    out
}

/// Inserting an element between its lower and upper neighbours keeps a
/// sequence sorted.
proof fn lemma_sorted_insert(pre: Seq<(u64, u64)>, j: int, e: (u64, u64))
    requires
        sorted_by(pre, pair_order()),
        0 <= j <= pre.len(),
        forall|q: int| 0 <= q < j ==> pair_leq(#[trigger] pre[q], e),
        j < pre.len() ==> !pair_leq(pre[j], e),
    ensures
        sorted_by(pre.insert(j, e), pair_order()),
{
    let ghost ord = pair_order();
    let t = pre.insert(j, e);
    assert forall|p: int, q: int| 0 <= p < q < t.len() implies #[trigger] ord(t[p], t[q]) by {
        assert(ord(t[p], t[q]) == pair_leq(t[p], t[q]));
        assert forall|a: int, b: int| 0 <= a < b < pre.len() implies pair_leq(pre[a], pre[b]) by {
            assert(ord(pre[a], pre[b]));
        }
        if q < j {
            assert(t[p] == pre[p] && t[q] == pre[q]);
        } else if p > j {
            assert(t[p] == pre[p - 1] && t[q] == pre[q - 1]);
        } else if p < j && q == j {
            assert(t[p] == pre[p] && t[q] == e);
        } else if p == j && q > j {
            assert(t[p] == e && t[q] == pre[q - 1]);
            assert(!pair_leq(pre[j], e));
            assert(pair_leq(e, pre[j]));
            if q - 1 > j {
                assert(pair_leq(pre[j], pre[q - 1]));
            }
        } else {
            assert(p < j && q > j);
            assert(t[p] == pre[p] && t[q] == pre[q - 1]);
            assert(pair_leq(pre[p], e));
            assert(pair_leq(e, pre[j]));
            if q - 1 > j {
                assert(pair_leq(pre[j], pre[q - 1]));
            }
        }
    }
}

/// Which tier index `i` of `len` sorted entities falls into, for a fixed
/// number of near-equal tiers counted down from the top: the highest-count
/// entity always lands in the highest tier, and the lowest tier absorbs the
/// remainder.
pub open spec fn spec_tier_of(i: int, len: int, tiers: int) -> int {
    let per = if len / tiers >= 1 {
        len / tiers
    } else {
        1
    };
    let from_top = (len - 1 - i) / per;
    if from_top >= tiers {
        0
    } else {
        tiers - 1 - from_top
    }
}

/// The tier assignment for a sorted pair sequence: each entity key with its
/// tier index.
pub open spec fn spec_ranked(sorted: Seq<(u64, u64)>, tiers: int) -> Seq<(u64, usize)> {
    Seq::new(sorted.len(), |i: int| (sorted[i].0, spec_tier_of(i, sorted.len() as int, tiers) as usize))
}

/// Rank the counter's entities into `num_tiers` tiers: stable sort by
/// (count, key) ascending, then near-equal buckets by sorted position.
pub fn ranked_entities(counter: &Counter, num_tiers: usize) -> (r: Vec<(u64, usize)>)
    requires
        1 <= num_tiers,
    ensures
        r@ == spec_ranked(counter@.sort_by(pair_order()), num_tiers as int),
{
    let sorted = sort_pairs(counter.pairs());
    let len: usize = sorted.len();
    let per: usize = if len / num_tiers >= 1 {
        len / num_tiers
    } else {
        1
    };
    let mut r: Vec<(u64, usize)> = Vec::new();
    let mut i: usize = 0;
    while i < len
        invariant
            1 <= num_tiers,
            len == sorted@.len(),
            sorted@ == counter@.sort_by(pair_order()),
            per == (if len as int / num_tiers as int >= 1 {
                len as int / num_tiers as int
            } else {
                1int
            }),
            0 <= i <= len,
            r@.len() == i,
            forall|q: int|
                0 <= q < i ==> #[trigger] r@[q] == (sorted@[q].0, spec_tier_of(
                    q,
                    len as int,
                    num_tiers as int,
                ) as usize),
        decreases len - i,
    {
        let from_top: usize = (len - 1 - i) / per;
        let tier: usize = if from_top >= num_tiers {
            0
        } else {
            num_tiers - 1 - from_top
        };
        r.push((sorted[i].0, tier));
        i = i + 1;
    }
    proof {
        assert(r@ =~= spec_ranked(counter@.sort_by(pair_order()), num_tiers as int));
    }
    r
}

/// Ranking is reproducible: two counters holding the same observations (the
/// same multiset of key/count pairs, in any insertion order) sort, and hence
/// rank, identically.
pub proof fn lemma_ranking_deterministic(s1: Seq<(u64, u64)>, s2: Seq<(u64, u64)>, tiers: int)
    requires
        s1.to_multiset() == s2.to_multiset(),
    ensures
        s1.sort_by(pair_order()) == s2.sort_by(pair_order()),
        spec_ranked(s1.sort_by(pair_order()), tiers) == spec_ranked(s2.sort_by(pair_order()), tiers),
{
    lemma_pair_order_total();
    s1.lemma_sort_by_ensures(pair_order());
    s2.lemma_sort_by_ensures(pair_order());
    lemma_sorted_unique(s1.sort_by(pair_order()), s2.sort_by(pair_order()), pair_order());
}

/// Tier assignments joined with their gradient samples.
pub open spec fn spec_ranked_colors(
    sorted: Seq<(u64, u64)>,
    g: Gradient,
    tiers: int,
) -> Seq<(u64, Color)> {
    Seq::new(
        sorted.len(),
        |i: int| (sorted[i].0, spec_sample(g, spec_tier_of(i, sorted.len() as int, tiers), tiers)),
    )
}

/// Rank the counter's entities and color each by its tier's gradient sample.
pub fn ranked_colors(counter: &Counter, g: &Gradient, num_tiers: usize) -> (r: Vec<(u64, Color)>)
    requires
        1 <= num_tiers,
    ensures
        r@ == spec_ranked_colors(counter@.sort_by(pair_order()), *g, num_tiers as int),
{
    let ranked = ranked_entities(counter, num_tiers);
    let mut r: Vec<(u64, Color)> = Vec::new();
    let ghost sorted = counter@.sort_by(pair_order());
    let mut i: usize = 0;
    while i < ranked.len()
        invariant
            1 <= num_tiers,
            ranked@ == spec_ranked(sorted, num_tiers as int),
            0 <= i <= ranked@.len(),
            r@.len() == i,
            forall|q: int|
                0 <= q < i ==> #[trigger] r@[q] == (sorted[q].0, spec_sample(
                    *g,
                    spec_tier_of(q, sorted.len() as int, num_tiers as int),
                    num_tiers as int,
                )),
        decreases ranked@.len() - i,
    {
        let (key, tier) = ranked[i];
        proof {
            assert(ranked@[i as int] == (sorted[i as int].0, spec_tier_of(
                i as int,
                sorted.len() as int,
                num_tiers as int,
            ) as usize));
            lemma_tier_in_range(i as int, sorted.len() as int, num_tiers as int);
        }
        let c = g.sample(tier, num_tiers);
        r.push((key, c));
        i = i + 1;
    }
    proof {
        assert(r@ =~= spec_ranked_colors(sorted, *g, num_tiers as int));
    }
    r
}

/// Tier indices stay within `[0, tiers)`.
proof fn lemma_tier_in_range(i: int, len: int, tiers: int)
    requires
        0 <= i < len,
        1 <= tiers,
    ensures
        0 <= spec_tier_of(i, len, tiers) < tiers,
{
    let per = if len / tiers >= 1 {
        len / tiers
    } else {
        1
    };
    assert(per >= 1);
    assert((len - 1 - i) / per >= 0) by (nonlinear_arith)
        requires len - 1 - i >= 0 && per >= 1;
}

} // verus!
