//! One rate limiter per job category, shared by all worker lanes.
//!
//! Each category is a fixed-interval gate: after an execution of the
//! category starts at `s`, no further execution of it may start before
//! `s + interval`. The model keeps, per category, the earliest instant at
//! which the next start is allowed; the first start of a category is free.

use crate::job::UnknownCategoryError;
use vstd::prelude::*;

verus! {

/// The registry of category gates. Category `c` is registered when
/// `c < intervals.len()`; its gate opens again `intervals[c]` time units
/// after each start.
pub struct RateLimiterRegistry {
    /// The configured minimum gap between two starts, per category.
    pub intervals: Vec<u64>,
    /// Per category, the earliest instant the next start may happen.
    pub next_allowed: Vec<u64>,
}

impl RateLimiterRegistry {
    /// One gate per configured category; every gate starts open.
    pub open spec fn wf(self) -> bool {
        self.next_allowed@.len() == self.intervals@.len()
    }

    /// Builds the registry from the configured intervals; every category
    /// may start immediately.
    pub fn new(intervals: &Vec<u64>) -> (r: Self)
        ensures
            r.wf(),
            r.intervals@ == intervals@,
            forall|c: int| 0 <= c < r.next_allowed@.len() ==> r.next_allowed@[c] == 0,
    {
        let mut ivs: Vec<u64> = Vec::new();
        let mut next_allowed: Vec<u64> = Vec::new();
        let mut i: usize = 0;
        while i < intervals.len()
            invariant
                i <= intervals@.len(),
                ivs@.len() == i,
                next_allowed@.len() == i,
                forall|c: int| 0 <= c < i ==> #[trigger] ivs@[c] == intervals@[c],
                forall|c: int| 0 <= c < i ==> #[trigger] next_allowed@[c] == 0,
            decreases intervals@.len() - i,
        {
            ivs.push(intervals[i]);
            next_allowed.push(0);
            i = i + 1;
        }
        proof {
            assert(ivs@ =~= intervals@);
        }
        RateLimiterRegistry { intervals: ivs, next_allowed }
    }

    /// Whether a category has a configured gate. A lane must check this
    /// before acquiring; an unregistered category is reported, not run.
    pub fn is_registered(&self, c: usize) -> (r: bool)
        ensures
            r == (c < self.intervals@.len()),
    {
        c < self.intervals.len()
    }

    /// The earliest instant at which the next execution of category `c`
    /// may start.
    pub fn ready_at(&self, c: usize) -> (r: u64)
        requires
            self.wf(),
            c < self.intervals@.len(),
        ensures
            r == self.next_allowed@[c as int],
    {
        self.next_allowed[c]
    }

    /// The earliest start instant for category `c`, or the registry's
    /// own refusal when `c` has no configured gate.
    pub fn acquire_gate(&self, c: usize) -> (r: Result<u64, UnknownCategoryError>)
        requires
            self.wf(),
        ensures
            (r is Ok) == (c < self.intervals@.len()),
            r is Ok ==> r->Ok_0 == self.next_allowed@[c as int],
            r is Err ==> r->Err_0.category == c,
    {
        if c < self.intervals.len() {
            Ok(self.next_allowed[c])
        } else {
            Err(UnknownCategoryError { category: c })
        }
    }

    /// Notes that an execution of category `c` started at instant `s`:
    /// no further start of `c` is allowed before `s + intervals[c]`.
    pub fn record_start(&mut self, c: usize, s: u64)
        requires
            old(self).wf(),
            c < old(self).intervals@.len(),
            s >= old(self).next_allowed@[c as int],
            s + old(self).intervals@[c as int] <= u64::MAX,
        ensures
            final(self).wf(),
            final(self).intervals@ == old(self).intervals@,
            final(self).next_allowed@ == old(self).next_allowed@.update(
                c as int,
                (s + old(self).intervals@[c as int]) as u64,
            ),
    {
        let gate: u64 = s + self.intervals[c];
        self.next_allowed[c] = gate;
    }
}

} // verus!
