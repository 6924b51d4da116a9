//! Routing the input batch to the worker lanes.
//!
//! The dispatcher walks the batch once. A job naming a worker with no
//! lane is a structural error of the whole batch: dispatch fails fast,
//! before any lane receives anything, and reports the first offending
//! job. Otherwise every job lands in its worker's inbox, and the inbox of
//! each worker holds exactly that worker's jobs in batch order.

use crate::job::{Job, UnknownWorker};
use crate::lane::{Routed, WorkerLane};
use vstd::prelude::*;

verus! {

/// The jobs of the batch that belong to worker `w`, each with its batch
/// index, in batch order: what worker `w`'s inbox holds after dispatch.
pub open spec fn worker_routed(jobs: Seq<Job>, w: int) -> Seq<Routed>
    decreases jobs.len(),
{
    if jobs.len() == 0 {
        Seq::empty()
    } else {
        worker_routed(jobs.drop_last(), w) + if jobs.last().worker == w {
            seq![Routed { index: (jobs.len() - 1) as usize, job: jobs.last() }]
        } else {
            Seq::empty()
        }
    }
}

/// Routing one more job of the batch appends it to its worker's inbox and
/// to no other.
pub proof fn lemma_worker_routed_take_step(jobs: Seq<Job>, w: int, i: int)
    requires
        0 <= i < jobs.len(),
    ensures
        worker_routed(jobs.take(i + 1), w) == worker_routed(jobs.take(i), w) + if jobs[i].worker
            == w {
            seq![Routed { index: i as usize, job: jobs[i] }]
        } else {
            Seq::<Routed>::empty()
        },
{
    assert(jobs.take(i + 1).drop_last() =~= jobs.take(i));
    assert(jobs.take(i + 1).last() == jobs[i]);
}

/// Appending a job to the batch appends it to its worker's inbox and to
/// no other.
pub proof fn lemma_worker_routed_push(jobs: Seq<Job>, j: Job)
    ensures
        forall|w: int|
            worker_routed(#[trigger] jobs.push(j), w) == worker_routed(jobs, w) + if j.worker
                == w {
                seq![Routed { index: jobs.len() as usize, job: j }]
            } else {
                Seq::<Routed>::empty()
            },
{
    assert(jobs.push(j).drop_last() =~= jobs);
    assert(jobs.push(j).last() == j);
}

/// The total inbox length of the first `n` workers.
pub open spec fn sum_routed_len(jobs: Seq<Job>, n: int) -> int
    decreases n,
{
    if n <= 0 {
        0
    } else {
        sum_routed_len(jobs, n - 1) + worker_routed(jobs, n - 1).len()
    }
}

/// An empty batch fills no inbox.
pub proof fn lemma_sum_routed_empty(n: int)
    ensures
        sum_routed_len(Seq::<Job>::empty(), n) == 0,
    decreases n,
{
    if n > 0 {
        lemma_sum_routed_empty(n - 1);
    }
}

/// Appending one job grows the total inbox length by one when its worker
/// has a lane, and not at all otherwise.
pub proof fn lemma_sum_routed_push(jobs: Seq<Job>, j: Job, n: int)
    ensures
        sum_routed_len(jobs.push(j), n) == sum_routed_len(jobs, n) + if 0 <= j.worker < n {
            1int
        } else {
            0int
        },
    decreases n,
{
    lemma_worker_routed_push(jobs, j);
    if n > 0 {
        lemma_sum_routed_push(jobs, j, n - 1);
    }
}

/// The lanes together hold no more jobs than the batch: each job of the
/// batch lands in at most one inbox.
pub proof fn lemma_sum_routed_le(jobs: Seq<Job>, n: int)
    ensures
        sum_routed_len(jobs, n) <= jobs.len(),
    decreases jobs.len(),
{
    if jobs.len() == 0 {
        assert(jobs =~= Seq::<Job>::empty());
        lemma_sum_routed_empty(n);
    } else {
        lemma_sum_routed_le(jobs.drop_last(), n);
        assert(jobs.drop_last().push(jobs.last()) =~= jobs);
        lemma_sum_routed_push(jobs.drop_last(), jobs.last(), n);
        assert(sum_routed_len(jobs.drop_last().push(jobs.last()), n) == sum_routed_len(jobs, n));
    }
}

/// Every inbox entry records the batch position of a job of its worker.
pub proof fn lemma_worker_routed_entries(jobs: Seq<Job>, w: int)
    requires
        jobs.len() <= usize::MAX,
    ensures
        forall|p: int|
            0 <= p < worker_routed(jobs, w).len() ==> {
                let r = #[trigger] worker_routed(jobs, w)[p];
                &&& r.index < jobs.len()
                &&& jobs[r.index as int] == r.job
                &&& r.job.worker == w
            },
    decreases jobs.len(),
{
    if jobs.len() > 0 {
        lemma_worker_routed_entries(jobs.drop_last(), w);
        let q = worker_routed(jobs, w);
        let qd = worker_routed(jobs.drop_last(), w);
        assert forall|p: int| 0 <= p < q.len() implies {
            let r = #[trigger] q[p];
            &&& r.index < jobs.len()
            &&& jobs[r.index as int] == r.job
            &&& r.job.worker == w
        } by {
            if p < qd.len() {
                assert(q[p] == qd[p]);
                assert(jobs.drop_last()[qd[p].index as int] == jobs[qd[p].index as int]);
            } else {
                assert(jobs.last().worker == w);
                assert(q.len() == qd.len() + 1 && p == qd.len());
                assert(q[p] == seq![
                    Routed { index: (jobs.len() - 1) as usize, job: jobs.last() },
                ][0]);
            }
        }
    }
}

/// Inbox entries keep batch order: an earlier entry has a smaller batch
/// index.
pub proof fn lemma_worker_routed_monotone(jobs: Seq<Job>, w: int, p1: int, p2: int)
    requires
        jobs.len() <= usize::MAX,
        0 <= p1 < p2 < worker_routed(jobs, w).len(),
    ensures
        worker_routed(jobs, w)[p1].index < worker_routed(jobs, w)[p2].index,
    decreases jobs.len(),
{
    let q = worker_routed(jobs, w);
    let qd = worker_routed(jobs.drop_last(), w);
    if p2 < qd.len() {
        lemma_worker_routed_monotone(jobs.drop_last(), w, p1, p2);
        assert(q[p1] == qd[p1] && q[p2] == qd[p2]);
    } else {
        assert(jobs.last().worker == w);
        assert(p2 == qd.len() && q[p2].index == jobs.len() - 1);
        lemma_worker_routed_entries(jobs.drop_last(), w);
        assert(q[p1] == qd[p1]);
        assert(qd[p1].index < jobs.drop_last().len());
    }
}

/// A job of worker `w` stands somewhere in worker `w`'s inbox.
pub proof fn lemma_worker_routed_contains(jobs: Seq<Job>, w: int, i: int)
    requires
        jobs.len() <= usize::MAX,
        0 <= i < jobs.len(),
        jobs[i].worker == w,
    ensures
        exists|p: int|
            0 <= p < worker_routed(jobs, w).len() && #[trigger] worker_routed(jobs, w)[p]
                == (Routed { index: i as usize, job: jobs[i] }),
    decreases jobs.len(),
{
    let q = worker_routed(jobs, w);
    if i == jobs.len() - 1 {
        assert(jobs.last() == jobs[i]);
        assert(q[q.len() - 1] == (Routed { index: i as usize, job: jobs[i] }));
    } else {
        lemma_worker_routed_contains(jobs.drop_last(), w, i);
        let qd = worker_routed(jobs.drop_last(), w);
        let p = choose|p: int|
            0 <= p < qd.len() && #[trigger] qd[p] == (Routed {
                index: i as usize,
                job: jobs.drop_last()[i],
            });
        assert(jobs.drop_last()[i] == jobs[i]);
        assert(q[p] == (Routed { index: i as usize, job: jobs[i] }));
    }
}

/// Routes each job of the batch, in order, to the lane of the worker it
/// names. When some job names a worker without a lane the whole batch is
/// malformed: no lane is produced, and the error carries the first such
/// job. Otherwise worker `w`'s inbox is exactly the subsequence of the
/// batch destined for `w`, closed for further submission.
pub fn dispatch(jobs: &Vec<Job>, n_workers: usize) -> (r: Result<Vec<WorkerLane>, UnknownWorker>)
    ensures
        r is Ok ==> {
            &&& forall|i: int| 0 <= i < jobs@.len() ==> (#[trigger] jobs@[i]).worker < n_workers
            &&& r->Ok_0@.len() == n_workers
            &&& forall|w: int|
                0 <= w < n_workers ==> (#[trigger] r->Ok_0@[w]).inbox@ == worker_routed(jobs@, w)
        },
        r is Err ==> {
            &&& r->Err_0.job_index < jobs@.len()
            &&& jobs@[r->Err_0.job_index as int].worker == r->Err_0.worker
            &&& r->Err_0.worker >= n_workers
            &&& forall|i: int|
                0 <= i < r->Err_0.job_index ==> (#[trigger] jobs@[i]).worker < n_workers
        },
        (r is Err) == exists|i: int|
            0 <= i < jobs@.len() && (#[trigger] jobs@[i]).worker >= n_workers,
{
    let mut i: usize = 0;
    while i < jobs.len()
        invariant
            i <= jobs@.len(),
            forall|k: int| 0 <= k < i ==> (#[trigger] jobs@[k]).worker < n_workers,
        decreases jobs@.len() - i,
    {
        if jobs[i].worker >= n_workers {
            return Err(UnknownWorker { job_index: i, worker: jobs[i].worker });
        }
        i = i + 1;
    }
    let mut lanes: Vec<WorkerLane> = Vec::new();
    let mut w: usize = 0;
    while w < n_workers
        invariant
            w <= n_workers,
            lanes@.len() == w,
            forall|x: int| 0 <= x < w ==> (#[trigger] lanes@[x]).inbox@ == worker_routed(jobs@, x),
        decreases n_workers - w,
    {
        let mut lane = WorkerLane::new();
        let mut i: usize = 0;
        while i < jobs.len()
            invariant
                i <= jobs@.len(),
                lane.inbox@ == worker_routed(jobs@.take(i as int), w as int),
            decreases jobs@.len() - i,
        {
            proof {
                lemma_worker_routed_take_step(jobs@, w as int, i as int);
            }
            if jobs[i].worker == w {
                lane.submit(Routed { index: i, job: jobs[i] });
            }
            i = i + 1;
        }
        proof {
            assert(jobs@.take(jobs@.len() as int) =~= jobs@);
        }
        lanes.push(lane);
        w = w + 1;
    }
    Ok(lanes)
}

} // verus!
