//! A counter keyed by entity ids: a mapping from key to a non-negative
//! accumulator in which keys not yet observed implicitly have value zero.
//! Adding zero still records the key as present, so "present but empty"
//! entities can be told apart from never-observed ones and still receive a
//! color tier.

use vstd::prelude::*;

verus! {

/// Association list with pairwise-distinct keys, in insertion order.
#[derive(Clone, Debug, PartialEq)]
pub struct Counter {
    pairs: Vec<(u64, u64)>,
}

/// The accumulated value for `k` in a pair sequence, zero when absent.
pub open spec fn seq_get(s: Seq<(u64, u64)>, k: u64) -> u64
    decreases s.len(),
{
    if s.len() == 0 {
        0
    } else if s[0].0 == k {
        s[0].1
    } else {
        seq_get(s.drop_first(), k)
    }
}

/// Whether `k` has been recorded in a pair sequence.
pub open spec fn seq_has_key(s: Seq<(u64, u64)>, k: u64) -> bool {
    exists|i: int| 0 <= i < s.len() && (#[trigger] s[i]).0 == k
}

/// Keys are pairwise distinct.
pub open spec fn distinct_keys(s: Seq<(u64, u64)>) -> bool {
    forall|i: int, j: int| 0 <= i < j < s.len() ==> (#[trigger] s[i]).0 != (#[trigger] s[j]).0
}

/// `seq_get` returns the value stored at the first index holding `k`.
proof fn lemma_seq_get_at(s: Seq<(u64, u64)>, k: u64, i: int)
    requires
        0 <= i < s.len(),
        s[i].0 == k,
        forall|j: int| 0 <= j < i ==> (#[trigger] s[j]).0 != k,
    ensures
        seq_get(s, k) == s[i].1,
    decreases i,
{
    if i > 0 {
        lemma_seq_get_at(s.drop_first(), k, i - 1);
    }
}

/// `seq_get` is zero when no index holds `k`.
proof fn lemma_seq_get_absent(s: Seq<(u64, u64)>, k: u64)
    requires
        forall|j: int| 0 <= j < s.len() ==> (#[trigger] s[j]).0 != k,
    ensures
        seq_get(s, k) == 0,
    decreases s.len(),
{
    if s.len() > 0 {
        lemma_seq_get_absent(s.drop_first(), k);
    }
}

/// Updating the value at the first index holding `k` adds to `seq_get` at
/// `k` and leaves every other key's value alone.
proof fn lemma_seq_get_update(s: Seq<(u64, u64)>, k: u64, i: int, v: u64)
    requires
        0 <= i < s.len(),
        s[i].0 == k,
        forall|j: int| 0 <= j < i ==> (#[trigger] s[j]).0 != k,
    ensures
        seq_get(s.update(i, (k, v)), k) == v,
        forall|k2: u64| k2 != k ==> seq_get(s.update(i, (k, v)), k2) == seq_get(s, k2),
    decreases i,
{
    let t = s.update(i, (k, v));
    if i == 0 {
        assert(t.drop_first() =~= s.drop_first());
        assert(t[0] == (k, v));
        assert forall|k2: u64| k2 != k implies seq_get(t, k2) == seq_get(s, k2) by {
            assert(seq_get(t, k2) == seq_get(t.drop_first(), k2));
            assert(seq_get(s, k2) == seq_get(s.drop_first(), k2));
        }
    } else {
        lemma_seq_get_update(s.drop_first(), k, i - 1, v);
        let t2 = s.drop_first().update(i - 1, (k, v));
        assert(t.drop_first() =~= t2);
        assert(t[0] == s[0]);
        assert(seq_get(t, k) == seq_get(t2, k));
        assert forall|k2: u64| k2 != k implies seq_get(t, k2) == seq_get(s, k2) by {
            if s[0].0 == k2 {
                assert(seq_get(t, k2) == t[0].1);
                assert(seq_get(s, k2) == s[0].1);
            } else {
                assert(seq_get(t, k2) == seq_get(t2, k2));
                assert(seq_get(s, k2) == seq_get(s.drop_first(), k2));
            }
        }
    }
}

/// Appending a fresh pair sets its key's value and leaves the rest alone.
proof fn lemma_seq_get_push(s: Seq<(u64, u64)>, k: u64, v: u64)
    ensures
        forall|k2: u64|
            k2 != k ==> seq_get(s.push((k, v)), k2) == seq_get(s, k2),
        !seq_has_key(s, k) ==> seq_get(s.push((k, v)), k) == v,
    decreases s.len(),
{
    if s.len() == 0 {
        assert forall|k2: u64| k2 != k implies seq_get(s.push((k, v)), k2) == seq_get(s, k2) by {
            assert(s.push((k, v))[0] == (k, v));
            assert(s.push((k, v)).drop_first() =~= Seq::<(u64, u64)>::empty());
            assert(seq_get(Seq::<(u64, u64)>::empty(), k2) == 0);
        }
        if !seq_has_key(s, k) {
            assert(s.push((k, v))[0] == (k, v));
        }
    } else {
        lemma_seq_get_push(s.drop_first(), k, v);
        let t = s.push((k, v));
        assert(t.drop_first() =~= s.drop_first().push((k, v)));
        assert(t[0] == s[0]);
        assert forall|k2: u64| k2 != k implies seq_get(t, k2) == seq_get(s, k2) by {
            if s[0].0 == k2 {
                assert(seq_get(t, k2) == t[0].1);
                assert(seq_get(s, k2) == s[0].1);
            } else {
                assert(seq_get(t, k2) == seq_get(t.drop_first(), k2));
                assert(seq_get(s, k2) == seq_get(s.drop_first(), k2));
            }
        }
        if !seq_has_key(s, k) {
            assert(s[0].0 != k);
            assert(forall|i: int|
                0 <= i < s.drop_first().len() ==> (#[trigger] s.drop_first()[i]) == s[i + 1]);
            assert(!seq_has_key(s.drop_first(), k));
            assert(seq_get(t, k) == seq_get(t.drop_first(), k));
        }
    }
}

impl Counter {
    pub closed spec fn view(self) -> Seq<(u64, u64)> {
        self.pairs@
    }

    /// The internal invariant: no key occurs twice.
    pub open spec fn wf(self) -> bool {
        distinct_keys(self@)
    }

    /// The accumulated count for `k`; zero when `k` was never added.
    pub open spec fn spec_get(self, k: u64) -> u64 {
        seq_get(self@, k)
    }

    /// Whether `k` has ever been added (even with amount zero).
    pub open spec fn spec_has_key(self, k: u64) -> bool {
        seq_has_key(self@, k)
    }

    pub fn new() -> (r: Counter)
        ensures
            r.wf(),
            r@ == Seq::<(u64, u64)>::empty(),
            forall|k: u64| !r.spec_has_key(k),
            forall|k: u64| r.spec_get(k) == 0,
    {
        let r = Counter { pairs: Vec::new() };
        proof {
            assert forall|k: u64| r.spec_get(k) == 0 by {
                lemma_seq_get_absent(r@, k);
            }
        }
        r
    }

    /// Record `amount` more for `k`. Adding zero still makes `k` present.
    pub fn add(&mut self, k: u64, amount: u64)
        requires
            old(self).wf(),
            old(self).spec_get(k) + amount <= u64::MAX,
        ensures
            final(self).wf(),
            final(self).spec_get(k) == old(self).spec_get(k) + amount,
            forall|k2: u64| k2 != k ==> final(self).spec_get(k2) == old(self).spec_get(k2),
            forall|k2: u64|
                final(self).spec_has_key(k2) == (k2 == k || old(self).spec_has_key(k2)),
            final(self)@.len() == old(self)@.len() + (if old(self).spec_has_key(k) {
                0int
            } else {
                1int
            }),
    {
        let n: usize = self.pairs.len();
        let mut i: usize = 0;
        while i < n
            invariant
                self == old(self),
                old(self).wf(),
                old(self).spec_get(k) + amount <= u64::MAX,
                n == self.pairs@.len(),
                0 <= i <= n,
                forall|j: int| 0 <= j < i ==> (#[trigger] self.pairs@[j]).0 != k,
            decreases n - i,
        {
            if self.pairs[i].0 == k {
                let c: u64 = self.pairs[i].1;
                proof {
                    lemma_seq_get_at(self.pairs@, k, i as int);
                }
                let v: u64 = c + amount;
                proof {
                    lemma_seq_get_update(self.pairs@, k, i as int, v);
                }
                self.pairs.set(i, (k, v));
                proof {
                    assert forall|j: int|
                        0 <= j < self@.len() implies (#[trigger] self@[j]).0 == old(self)@[j].0 by {
                        if j != i {
                            assert(self@[j] == old(self)@[j]);
                        }
                    }
                    assert forall|a: int, b: int|
                        0 <= a < b < self@.len() implies (#[trigger] self@[a]).0 != (
                    #[trigger] self@[b]).0 by {
                        assert(old(self)@[a].0 != old(self)@[b].0);
                    }
                    assert forall|k2: u64|
                        self.spec_has_key(k2) == (k2 == k || old(self).spec_has_key(k2)) by {
                        if seq_has_key(old(self)@, k2) {
                            let w = choose|w: int|
                                0 <= w < old(self)@.len() && (#[trigger] old(self)@[w]).0 == k2;
                            if w == i {
                                assert(self@[w].0 == k2);
                            } else {
                                assert(self@[w].0 == k2);
                            }
                        }
                        if seq_has_key(self@, k2) && k2 != k {
                            let w = choose|w: int|
                                0 <= w < self@.len() && (#[trigger] self@[w]).0 == k2;
                            assert(old(self)@[w].0 == k2);
                        }
                    }
                }
                return ;
            }
            i = i + 1;
        }
        let ghost pre = self.pairs@;
        proof {
            lemma_seq_get_absent(pre, k);
            lemma_seq_get_push(pre, k, amount);
            if seq_has_key(pre, k) {
                let w = choose|w: int| 0 <= w < pre.len() && (#[trigger] pre[w]).0 == k;
            }
            assert(!seq_has_key(pre, k));
        }
        self.pairs.push((k, amount));
        proof {
            assert(self@ == pre.push((k, amount)));
            assert forall|a: int, b: int|
                0 <= a < b < self@.len() implies (#[trigger] self@[a]).0 != (
            #[trigger] self@[b]).0 by {
                assert(self@[a] == pre[a]);
                if b < pre.len() {
                    assert(self@[b] == pre[b]);
                    assert(pre[a].0 != pre[b].0);
                } else {
                    assert(self@[b].0 == k);
                    assert(pre[a].0 != k);
                }
            }
            assert forall|k2: u64|
                seq_has_key(self@, k2) == (k2 == k || seq_has_key(pre, k2)) by {
                if seq_has_key(pre, k2) {
                    let w = choose|w: int| 0 <= w < pre.len() && (#[trigger] pre[w]).0 == k2;
                    assert(self@[w].0 == k2);
                }
                assert(self@[self@.len() - 1].0 == k);
                if seq_has_key(self@, k2) && k2 != k {
                    let w = choose|w: int| 0 <= w < self@.len() && (#[trigger] self@[w]).0 == k2;
                    assert(pre[w].0 == k2);
                }
            }
        }
    }

    /// The count for `k`, zero for absent keys; never mutates the counter.
    pub fn get(&self, k: u64) -> (c: u64)
        ensures
            c == self.spec_get(k),
    {
        let n: usize = self.pairs.len();
        let mut i: usize = 0;
        while i < n
            invariant
                n == self.pairs@.len(),
                0 <= i <= n,
                forall|j: int| 0 <= j < i ==> (#[trigger] self.pairs@[j]).0 != k,
            decreases n - i,
        {
            if self.pairs[i].0 == k {
                proof {
                    lemma_seq_get_at(self.pairs@, k, i as int);
                }
                return self.pairs[i].1;
            }
            i = i + 1;
        }
        proof {
            lemma_seq_get_absent(self.pairs@, k);
        }
        0
    }

    /// The presence query: whether `k` was ever added.
    pub fn contains_key(&self, k: u64) -> (r: bool)
        ensures
            r == self.spec_has_key(k),
    {
        let n: usize = self.pairs.len();
        let mut i: usize = 0;
        while i < n
            invariant
                n == self.pairs@.len(),
                0 <= i <= n,
                forall|j: int| 0 <= j < i ==> (#[trigger] self.pairs@[j]).0 != k,
            decreases n - i,
        {
            if self.pairs[i].0 == k {
                return true;
            }
            i = i + 1;
        }
        false
    }

    /// How many distinct keys have been recorded.
    pub fn len(&self) -> (n: usize)
        ensures
            n == self@.len(),
    {
        self.pairs.len()
    }

    /// The recorded pairs in insertion order.
    pub fn pairs(&self) -> (v: &Vec<(u64, u64)>)
        ensures
            v@ == self@,
    {
        &self.pairs
    }
}

/// Adding zero for a key leaves its count at zero but makes the key
/// distinguishable from a never-added one: the third testable property.
pub proof fn lemma_preseed_present_but_zero(c0: Counter, c1: Counter, k: u64)
    requires
        c0.wf(),
        !c0.spec_has_key(k),
        c1.wf(),
        c1.spec_get(k) == c0.spec_get(k) + 0,
        c1.spec_has_key(k),
    ensures
        c1.spec_get(k) == 0,
        c1.spec_has_key(k) != c0.spec_has_key(k),
{
    lemma_get_zero_when_absent(c0, k);
}

/// A key never added reads as zero.
pub proof fn lemma_get_zero_when_absent(c: Counter, k: u64)
    requires
        !c.spec_has_key(k),
    ensures
        c.spec_get(k) == 0,
{
    assert forall|j: int| 0 <= j < c@.len() implies (#[trigger] c@[j]).0 != k by {
        if c@[j].0 == k {
            assert(seq_has_key(c@, k));
        }
    }
    lemma_seq_get_absent(c@, k);
}

} // verus!
