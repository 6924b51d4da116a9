//! The global concurrency gate: at most `capacity` executions hold a unit
//! at the same instant, across all worker lanes.
//!
//! The model records the finish instant of every execution ever admitted.
//! An execution holds its unit over the half-open window from its start to
//! its finish, so the units held at instant `t` are the admitted finishes
//! strictly greater than `t`: admissions advance with the clock, so every
//! admitted start lies at or before whichever instant is examined.

use crate::trace::{count_unfinished, StartEvent};
use vstd::prelude::*;

verus! {

/// How many entries of `s` are strictly greater than `t`.
pub open spec fn count_gt(s: Seq<u64>, t: u64) -> nat
    decreases s.len(),
{
    if s.len() == 0 {
        0
    } else {
        count_gt(s.drop_last(), t) + if s.last() > t {
            1nat
        } else {
            0nat
        }
    }
}

/// A higher threshold is exceeded by no more entries.
pub proof fn lemma_count_gt_antitone(s: Seq<u64>, t1: u64, t2: u64)
    requires
        t1 <= t2,
    ensures
        count_gt(s, t2) <= count_gt(s, t1),
    decreases s.len(),
{
    if s.len() > 0 {
        lemma_count_gt_antitone(s.drop_last(), t1, t2);
    }
}

/// A positive count yields a witness entry above the threshold.
pub proof fn lemma_count_gt_witness(s: Seq<u64>, t: u64)
    requires
        count_gt(s, t) > 0,
    ensures
        exists|k: int| 0 <= k < s.len() && s[k] > t,
    decreases s.len(),
{
    if s.len() > 0 {
        if s.last() > t {
            assert(s[s.len() - 1] > t);
        } else {
            lemma_count_gt_witness(s.drop_last(), t);
            let k = choose|k: int| 0 <= k < s.drop_last().len() && s.drop_last()[k] > t;
            assert(s[k] > t);
        }
    }
}

/// When no entry lies in the window `(t1, t2]`, the counts at `t1` and
/// `t2` agree.
pub proof fn lemma_count_gt_constant(s: Seq<u64>, t1: u64, t2: u64)
    requires
        t1 <= t2,
        forall|k: int| 0 <= k < s.len() ==> !(t1 < #[trigger] s[k] <= t2),
    ensures
        count_gt(s, t2) == count_gt(s, t1),
    decreases s.len(),
{
    if s.len() > 0 {
        assert(forall|k: int|
            0 <= k < s.drop_last().len() ==> s.drop_last()[k] == #[trigger] s[k]);
        lemma_count_gt_constant(s.drop_last(), t1, t2);
        assert(s[s.len() - 1] == s.last());
    }
}

/// An entry inside the window `(t1, t2]` makes the count at `t2` strictly
/// smaller than at `t1`.
pub proof fn lemma_count_gt_drop(s: Seq<u64>, t1: u64, t2: u64, k: int)
    requires
        t1 <= t2,
        0 <= k < s.len(),
        t1 < s[k] <= t2,
    ensures
        count_gt(s, t2) < count_gt(s, t1),
    decreases s.len(),
{
    if k == s.len() - 1 {
        lemma_count_gt_antitone(s.drop_last(), t1, t2);
        assert(s.last() == s[k]);
    } else {
        assert(s.drop_last()[k] == s[k]);
        lemma_count_gt_drop(s.drop_last(), t1, t2, k);
    }
}

/// Matching finish entries against trace events equates the two counts
/// of unfinished executions at every instant.
pub proof fn lemma_unfinished_matches_gt(events: Seq<StartEvent>, fin: Seq<u64>, t: u64)
    requires
        fin.len() == events.len(),
        forall|k: int| 0 <= k < events.len() ==> fin[k] == #[trigger] events[k].finish,
    ensures
        count_unfinished(events, t) == count_gt(fin, t),
    decreases events.len(),
{
    if events.len() > 0 {
        assert(forall|k: int|
            0 <= k < events.drop_last().len() ==> fin.drop_last()[k] == #[trigger] events.drop_last()[k].finish);
        lemma_unfinished_matches_gt(events.drop_last(), fin.drop_last(), t);
        assert(fin.last() == events.last().finish);
    }
}

/// The counting admission gate: a fixed capacity and the finish instants
/// of every execution admitted so far.
pub struct ConcurrencyAdmission {
    /// The maximum number of units held at any instant.
    pub capacity: usize,
    /// Finish instants of all admitted executions, in admission order.
    pub finishes: Vec<u64>,
}

impl ConcurrencyAdmission {
    /// A fresh gate with the given capacity and no execution admitted.
    pub fn new(capacity: usize) -> (r: Self)
        requires
            capacity >= 1,
        ensures
            r.capacity == capacity,
            r.finishes@ == Seq::<u64>::empty(),
    {
        let finishes: Vec<u64> = Vec::new();
        proof {
            assert(finishes@ =~= Seq::<u64>::empty());
        }
        ConcurrencyAdmission { capacity, finishes }
    }

    /// How many admitted executions are still running at instant `t`.
    pub fn in_flight_at(&self, t: u64) -> (n: usize)
        ensures
            n == count_gt(self.finishes@, t),
    {
        let mut n: usize = 0;
        let mut i: usize = 0;
        while i < self.finishes.len()
            invariant
                i <= self.finishes@.len(),
                n == count_gt(self.finishes@.take(i as int), t),
                n <= i,
            decreases self.finishes@.len() - i,
        {
            proof {
                assert(self.finishes@.take(i + 1).drop_last() =~= self.finishes@.take(i as int));
                assert(self.finishes@.take(i + 1).last() == self.finishes@[i as int]);
            }
            if self.finishes[i] > t {
                n = n + 1;
            }
            i = i + 1;
        }
        proof {
            assert(self.finishes@.take(self.finishes@.len() as int) =~= self.finishes@);
        }
        n
    }

    /// The smallest recorded finish instant strictly above `t`.
    fn min_finish_above(&self, t: u64) -> (m: u64)
        requires
            exists|k: int| 0 <= k < self.finishes@.len() && self.finishes@[k] > t,
        ensures
            m > t,
            exists|k: int| 0 <= k < self.finishes@.len() && self.finishes@[k] == m,
            forall|k: int|
                0 <= k < self.finishes@.len() && #[trigger] self.finishes@[k] > t
                    ==> self.finishes@[k] >= m,
    {
        let mut m: u64 = 0;
        let mut found = false;
        let mut i: usize = 0;
        while i < self.finishes.len()
            invariant
                i <= self.finishes@.len(),
                found ==> m > t && exists|k: int| 0 <= k < i && self.finishes@[k] == m,
                forall|k: int|
                    0 <= k < i && #[trigger] self.finishes@[k] > t ==> found && self.finishes@[k]
                        >= m,
            decreases self.finishes@.len() - i,
        {
            let f = self.finishes[i];
            if f > t && (!found || f < m) {
                m = f;
                found = true;
            }
            i = i + 1;
        }
        m
    }

    /// The earliest instant at or after `t` at which a unit is free, that
    /// is, at which strictly fewer than `capacity` admitted executions are
    /// still running. The result is `t` itself or a recorded finish.
    pub fn earliest_free(&self, t: u64) -> (r: u64)
        requires
            self.capacity >= 1,
        ensures
            r >= t,
            count_gt(self.finishes@, r) < self.capacity,
            forall|u: u64| t <= u < r ==> count_gt(self.finishes@, u) >= self.capacity,
            r == t || exists|k: int| 0 <= k < self.finishes@.len() && self.finishes@[k] == r,
    {
        let mut s: u64 = t;
        loop
            invariant
                self.capacity >= 1,
                s >= t,
                forall|u: u64| t <= u < s ==> count_gt(self.finishes@, u) >= self.capacity,
                s == t || exists|k: int| 0 <= k < self.finishes@.len() && self.finishes@[k] == s,
            decreases count_gt(self.finishes@, s),
        {
            let n = self.in_flight_at(s);
            if n < self.capacity {
                return s;
            }
            proof {
                lemma_count_gt_witness(self.finishes@, s);
            }
            let m = self.min_finish_above(s);
            proof {
                // No finish lies in `(s, m)`, so the count stays at or
                // above capacity on that whole window and drops at `m`.
                assert(forall|u: u64|
                    s <= u < m ==> count_gt(self.finishes@, u) >= self.capacity) by {
                    assert forall|u: u64| s <= u < m implies count_gt(self.finishes@, u)
                        >= self.capacity by {
                        assert(forall|k: int|
                            0 <= k < self.finishes@.len() ==> !(s < #[trigger] self.finishes@[k]
                                <= u));
                        lemma_count_gt_constant(self.finishes@, s, u);
                    }
                }
                let k = choose|k: int|
                    0 <= k < self.finishes@.len() && self.finishes@[k] == m;
                lemma_count_gt_drop(self.finishes@, s, m, k);
            }
            s = m;
        }
    }

    /// Records one granted execution that will finish at the given
    /// instant; the caller has checked that a unit is free at its start.
    pub fn grant(&mut self, finish: u64)
        ensures
            final(self).capacity == old(self).capacity,
            final(self).finishes@ == old(self).finishes@.push(finish),
    {
        self.finishes.push(finish);
    }
}

} // verus!
