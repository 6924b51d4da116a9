//! One lane per worker: an ordered inbox and a cursor.
//!
//! A lane executes its inbox strictly in arrival order, one job at a time.
//! The dispatcher fills the inbox and then closes it, so during a run the
//! inbox is a fixed sequence and the lane's progress is a cursor into it:
//! every job before the cursor has been handled (executed, or skipped for
//! an unregistered category) and every job at or after it is still
//! pending.

use crate::job::Job;
use vstd::prelude::*;

verus! {

/// A job together with its position in the input batch.
#[derive(Clone, Copy, PartialEq, Eq, Structural, Debug)]
pub struct Routed {
    /// Index of the job in the input batch.
    pub index: usize,
    /// The job itself.
    pub job: Job,
}

/// One worker's inbox, in arrival order.
#[derive(Debug)]
pub struct WorkerLane {
    /// The jobs routed to this worker, oldest first.
    pub inbox: Vec<Routed>,
}

impl WorkerLane {
    /// An empty lane, open for submission.
    pub fn new() -> (r: Self)
        ensures
            r.inbox@ == Seq::<Routed>::empty(),
    {
        let inbox: Vec<Routed> = Vec::new();
        proof {
            assert(inbox@ =~= Seq::<Routed>::empty());
        }
        WorkerLane { inbox }
    }

    /// Enqueues one job at the back of the inbox; never blocks and never
    /// reorders what was submitted before.
    pub fn submit(&mut self, r: Routed)
        ensures
            final(self).inbox@ == old(self).inbox@.push(r),
    {
        self.inbox.push(r);
    }
}

/// The batch indices of the jobs of `q` whose category is registered
/// (below `ncat`), in order. These are exactly the jobs a lane hands to
/// the execution facade; the others it skips.
pub open spec fn valid_indices(q: Seq<Routed>, ncat: int) -> Seq<int>
    decreases q.len(),
{
    if q.len() == 0 {
        Seq::empty()
    } else {
        valid_indices(q.drop_last(), ncat) + if q.last().job.category < ncat {
            seq![q.last().index as int]
        } else {
            Seq::empty()
        }
    }
}

/// A registered-category entry of the inbox has its batch index in the
/// lane's valid-index sequence.
pub proof fn lemma_valid_indices_contains(q: Seq<Routed>, ncat: int, p: int)
    requires
        0 <= p < q.len(),
        q[p].job.category < ncat,
    ensures
        valid_indices(q, ncat).contains(q[p].index as int),
    decreases q.len(),
{
    let v = valid_indices(q, ncat);
    let vd = valid_indices(q.drop_last(), ncat);
    if p == q.len() - 1 {
        assert(q.last() == q[p]);
        assert(v[vd.len() as int] == q[p].index as int);
    } else {
        assert(q.drop_last()[p] == q[p]);
        lemma_valid_indices_contains(q.drop_last(), ncat, p);
        let pp = choose|pp: int| 0 <= pp < vd.len() && vd[pp] == q[p].index as int;
        assert(v[pp] == q[p].index as int);
    }
}

/// A batch index in the valid-index sequence comes from a
/// registered-category entry of the inbox.
pub proof fn lemma_valid_indices_entry(q: Seq<Routed>, ncat: int, x: int)
    requires
        valid_indices(q, ncat).contains(x),
    ensures
        exists|p: int|
            0 <= p < q.len() && (#[trigger] q[p]).index == x && q[p].job.category < ncat,
    decreases q.len(),
{
    let v = valid_indices(q, ncat);
    let vd = valid_indices(q.drop_last(), ncat);
    let pp = choose|pp: int| 0 <= pp < v.len() && v[pp] == x;
    if pp < vd.len() {
        assert(vd[pp] == x);
        lemma_valid_indices_entry(q.drop_last(), ncat, x);
        let p = choose|p: int|
            0 <= p < q.drop_last().len() && (#[trigger] q.drop_last()[p]).index == x
                && q.drop_last()[p].job.category < ncat;
        assert(q[p].index == x && q[p].job.category < ncat);
    } else {
        assert(q.last().job.category < ncat && q.last().index as int == x);
        assert(q[q.len() - 1].index == x && q[q.len() - 1].job.category < ncat);
    }
}

/// Extending a lane's handled prefix by one job appends that job's index
/// when its category is registered and nothing otherwise.
pub proof fn lemma_valid_indices_take_step(q: Seq<Routed>, n: int, ncat: int)
    requires
        0 <= n < q.len(),
    ensures
        valid_indices(q.take(n + 1), ncat) == valid_indices(q.take(n), ncat) + if q[n].job.category
            < ncat {
            seq![q[n].index as int]
        } else {
            Seq::<int>::empty()
        },
{
    assert(q.take(n + 1).drop_last() =~= q.take(n));
    assert(q.take(n + 1).last() == q[n]);
}

} // verus!
