//! The orchestrator: builds the registry, the admission gate and one lane
//! per worker, routes the batch, and plays every lane forward until all
//! inboxes are drained.
//!
//! The run is a deterministic discrete-time account of the concurrent
//! system: at each step the scheduler takes, among the lanes whose next
//! job is ready soonest (its lane free, its category's gate open), the
//! one with the lowest index, waits for a concurrency unit if none is
//! free, and starts the job. How long each execution takes, and whether
//! it succeeds, is the execution facade's business and comes in as plain
//! inputs, one per job.

use crate::admission::{lemma_unfinished_matches_gt, ConcurrencyAdmission};
use crate::dispatch::{
    dispatch, lemma_sum_routed_le, lemma_worker_routed_contains, lemma_worker_routed_entries,
    lemma_worker_routed_monotone, sum_routed_len, worker_routed,
};
use crate::job::{Job, JobStatus, UnknownWorker};
use crate::lane::{
    lemma_valid_indices_contains, lemma_valid_indices_entry, lemma_valid_indices_take_step,
    valid_indices, Routed, WorkerLane,
};
use crate::registry::RateLimiterRegistry;
use crate::trace::{
    count_active, count_index, indices_of_worker, lemma_active_le_unfinished,
    lemma_count_index_one, lemma_count_index_zero, lemma_event_in_worker_indices,
    lemma_trace_push, lemma_unfinished_antitone, lemma_worker_indices_event, trace_distinct,
    StartEvent,
};
use vstd::prelude::*;

verus! {

/// The largest batch a run accepts.
pub const MAX_BATCH: usize = 0x1000_0000;

/// The largest single duration or rate-limit interval a run accepts, in
/// time units.
pub const MAX_TICK: u64 = 0x1_0000_0000;

/// After `k` executions have started, every instant the scheduler tracks
/// is at most this: each start pushes the clock, a lane's free time and a
/// category's gate forward by at most one duration plus one interval.
pub open spec fn time_bound(k: int) -> int {
    k * (2 * MAX_TICK as int)
}

/// The event is consistent with the batch and the configuration: it names
/// a real job of the batch, on that job's worker and category, the worker
/// has a lane, the category a gate, and the execution lasted exactly the
/// job's duration.
pub open spec fn event_matches(
    e: StartEvent,
    jobs: Seq<Job>,
    durations: Seq<u64>,
    intervals: Seq<u64>,
    n_workers: int,
) -> bool {
    &&& e.index < jobs.len()
    &&& jobs[e.index as int].id == e.job_id
    &&& jobs[e.index as int].worker == e.worker
    &&& jobs[e.index as int].category == e.category
    &&& e.worker < n_workers
    &&& e.category < intervals.len()
    &&& e.finish == e.start + durations[e.index as int]
}

/// Every event of the trace is consistent with the batch: in particular
/// the execution facade is never invoked for a job whose category has no
/// gate or whose worker has no lane.
pub open spec fn events_wf(
    events: Seq<StartEvent>,
    jobs: Seq<Job>,
    durations: Seq<u64>,
    intervals: Seq<u64>,
    n_workers: int,
) -> bool {
    forall|k: int|
        0 <= k < events.len() ==> event_matches(
            #[trigger] events[k],
            jobs,
            durations,
            intervals,
            n_workers,
        )
}

/// Per-worker FIFO: the batch positions executed on worker `w`, in
/// execution order, are exactly the registered-category jobs routed to
/// `w`, in batch order.
pub open spec fn fifo_per_worker(
    events: Seq<StartEvent>,
    jobs: Seq<Job>,
    n_workers: int,
    ncat: int,
) -> bool {
    forall|w: int|
        0 <= w < n_workers ==> indices_of_worker(events, w) == valid_indices(
            worker_routed(jobs, w),
            ncat,
        )
}

/// Any two starts of the same category, across all workers, are at least
/// that category's interval apart.
pub open spec fn rate_gap_respected(events: Seq<StartEvent>, intervals: Seq<u64>) -> bool {
    forall|k1: int, k2: int|
        0 <= k1 < k2 < events.len() && (#[trigger] events[k1]).category == (
        #[trigger] events[k2]).category ==> events[k2].start >= events[k1].start
            + intervals[events[k1].category as int]
}

/// At every instant, at most `capacity` executions are running.
pub open spec fn capacity_respected(events: Seq<StartEvent>, capacity: int) -> bool {
    forall|t: u64| count_active(events, t) <= capacity
}

/// The trace lists starts in chronological order.
pub open spec fn chronological(events: Seq<StartEvent>) -> bool {
    forall|k1: int, k2: int|
        0 <= k1 <= k2 < events.len() ==> (#[trigger] events[k1]).start <= (
        #[trigger] events[k2]).start
}

/// A lane runs one job at a time: two executions on the same worker never
/// overlap.
pub open spec fn lanes_sequential(events: Seq<StartEvent>) -> bool {
    forall|k1: int, k2: int|
        0 <= k1 < k2 < events.len() && (#[trigger] events[k1]).worker == (
        #[trigger] events[k2]).worker ==> events[k1].finish <= events[k2].start
}

/// The terminal status a job ends the run with, determined by its
/// category and by what the facade reports for it.
pub open spec fn expected_status(job: Job, success: bool, ncat: int) -> JobStatus {
    if job.category >= ncat {
        JobStatus::UnknownCategory
    } else if success {
        JobStatus::Completed
    } else {
        JobStatus::ExecutionFailed
    }
}

/// How many jobs the first `n` lanes still have pending.
pub open spec fn remaining(lanes: Seq<WorkerLane>, pos: Seq<usize>, n: int) -> int
    decreases n,
{
    if n <= 0 {
        0
    } else {
        remaining(lanes, pos, n - 1) + (lanes[n - 1].inbox@.len() - pos[n - 1])
    }
}

/// With every cursor inside its inbox, no lane counts negatively.
pub proof fn lemma_remaining_nonneg(lanes: Seq<WorkerLane>, pos: Seq<usize>, n: int)
    requires
        n <= lanes.len(),
        n <= pos.len(),
        forall|w: int| 0 <= w < n ==> #[trigger] pos[w] <= lanes[w].inbox@.len(),
    ensures
        remaining(lanes, pos, n) >= 0,
    decreases n,
{
    if n > 0 {
        lemma_remaining_nonneg(lanes, pos, n - 1);
    }
}

/// The pending total covers each single lane's pending count.
pub proof fn lemma_remaining_ge_term(lanes: Seq<WorkerLane>, pos: Seq<usize>, n: int, w: int)
    requires
        0 <= w < n,
        n <= lanes.len(),
        n <= pos.len(),
        forall|x: int| 0 <= x < n ==> #[trigger] pos[x] <= lanes[x].inbox@.len(),
    ensures
        remaining(lanes, pos, n) >= lanes[w].inbox@.len() - pos[w],
    decreases n,
{
    if w == n - 1 {
        lemma_remaining_nonneg(lanes, pos, n - 1);
    } else {
        lemma_remaining_ge_term(lanes, pos, n - 1, w);
    }
}

/// Advancing one lane's cursor by one removes exactly one pending job.
pub proof fn lemma_remaining_advance(
    lanes: Seq<WorkerLane>,
    pos1: Seq<usize>,
    pos2: Seq<usize>,
    n: int,
    w: int,
)
    requires
        0 <= w < n,
        n <= pos1.len(),
        pos1.len() == pos2.len(),
        pos1[w] < usize::MAX,
        pos2 == pos1.update(w, ((pos1[w] + 1) as usize)),
    ensures
        remaining(lanes, pos2, n) == remaining(lanes, pos1, n) - 1,
    decreases n,
{
    if w == n - 1 {
        lemma_remaining_same(lanes, pos1, pos2, n - 1);
    } else {
        lemma_remaining_advance(lanes, pos1, pos2, n - 1, w);
    }
}

/// Lanes whose cursors agree have the same pending total.
pub proof fn lemma_remaining_same(
    lanes: Seq<WorkerLane>,
    pos1: Seq<usize>,
    pos2: Seq<usize>,
    n: int,
)
    requires
        n <= pos1.len(),
        n <= pos2.len(),
        forall|x: int| 0 <= x < n ==> #[trigger] pos1[x] == pos2[x],
    ensures
        remaining(lanes, pos2, n) == remaining(lanes, pos1, n),
    decreases n,
{
    if n > 0 {
        lemma_remaining_same(lanes, pos1, pos2, n - 1);
    }
}

/// At the start of a run the pending total is the routed total.
pub proof fn lemma_remaining_init(
    lanes: Seq<WorkerLane>,
    pos: Seq<usize>,
    n: int,
    jobs: Seq<Job>,
)
    requires
        n <= lanes.len(),
        n <= pos.len(),
        forall|w: int| 0 <= w < n ==> #[trigger] pos[w] == 0,
        forall|w: int| 0 <= w < n ==> (#[trigger] lanes[w]).inbox@ == worker_routed(jobs, w),
    ensures
        remaining(lanes, pos, n) == sum_routed_len(jobs, n),
    decreases n,
{
    if n > 0 {
        lemma_remaining_init(lanes, pos, n - 1, jobs);
    }
}

/// Every pending head, on the lanes below `upto`, names a registered
/// category: the skip pass has reported and passed over the others.
pub open spec fn heads_valid(
    lanes: Seq<WorkerLane>,
    pos: Seq<usize>,
    upto: int,
    ncat: int,
) -> bool {
    forall|x: int|
        0 <= x < upto ==> ((#[trigger] pos[x]) < lanes[x].inbox@.len() ==> lanes[x].inbox@[pos[x] as int].job.category
            < ncat)
}

/// The lane the scheduler picked: it has a pending job, that job's
/// category has a gate, and `best_e` is the instant at which both the
/// lane and the category's gate are ready for it.
pub open spec fn chosen_ok(
    lanes: Seq<WorkerLane>,
    pos: Seq<usize>,
    lane_free: Seq<u64>,
    reg: RateLimiterRegistry,
    ncat: int,
    n_workers: int,
    best_w: int,
    best_e: u64,
) -> bool {
    &&& 0 <= best_w < n_workers
    &&& pos[best_w] < lanes[best_w].inbox@.len()
    &&& {
        let cb = lanes[best_w].inbox@[pos[best_w] as int].job.category;
        &&& cb < ncat
        &&& best_e == if lane_free[best_w] >= reg.next_allowed@[cb as int] {
            lane_free[best_w]
        } else {
            reg.next_allowed@[cb as int]
        }
    }
}

/// The whole simulation invariant: the state of the lanes, the registry,
/// the admission gate and the clock is consistent with the trace built so
/// far, and the trace already satisfies every scheduling guarantee.
pub open spec fn sim_inv(
    lanes: Seq<WorkerLane>,
    pos: Seq<usize>,
    lane_free: Seq<u64>,
    reg: RateLimiterRegistry,
    gate: ConcurrencyAdmission,
    now: u64,
    events: Seq<StartEvent>,
    jobs: Seq<Job>,
    durations: Seq<u64>,
    intervals: Seq<u64>,
    capacity: int,
    n_workers: int,
) -> bool {
    // configuration and shapes
    &&& lanes.len() == n_workers
    &&& pos.len() == n_workers
    &&& lane_free.len() == n_workers
    &&& reg.wf()
    &&& reg.intervals@ == intervals
    &&& gate.capacity == capacity
    &&& capacity >= 1
    &&& jobs.len() <= MAX_BATCH
    &&& durations.len() == jobs.len()
    &&& (forall|i: int| 0 <= i < durations.len() ==> #[trigger] durations[i] <= MAX_TICK)
    &&& (forall|c: int| 0 <= c < intervals.len() ==> #[trigger] intervals[c] <= MAX_TICK)
    // lanes: fixed inboxes, cursors in range
    &&& (forall|w: int| 0 <= w < n_workers ==> #[trigger] pos[w] <= lanes[w].inbox@.len())
    &&& (forall|w: int|
        0 <= w < n_workers ==> (#[trigger] lanes[w]).inbox@ == worker_routed(jobs, w))
    // the finish entries held by the admission component mirror the trace
    &&& gate.finishes@.len() == events.len()
    &&& (forall|k: int|
        0 <= k < events.len() ==> #[trigger] gate.finishes@[k] == events[k].finish)
    // the trace so far
    &&& events_wf(events, jobs, durations, intervals, n_workers)
    &&& trace_distinct(events)
    &&& chronological(events)
    &&& (forall|k: int| 0 <= k < events.len() ==> (#[trigger] events[k]).start <= now)
    &&& (forall|k: int|
        0 <= k < events.len() ==> (#[trigger] events[k]).start + intervals[events[k].category as int]
            <= reg.next_allowed@[events[k].category as int])
    &&& rate_gap_respected(events, intervals)
    &&& capacity_respected(events, capacity)
    &&& (forall|w: int|
        0 <= w < n_workers ==> indices_of_worker(events, w) == valid_indices(
            lanes[w].inbox@.take(pos[w] as int),
            intervals.len() as int,
        ))
    &&& lanes_sequential(events)
    &&& (forall|k: int|
        0 <= k < events.len() ==> (#[trigger] events[k]).finish <= lane_free[events[k].worker as int])
    // time bounds, so that no addition overflows
    &&& now <= time_bound(events.len() as int)
    &&& (forall|w: int|
        0 <= w < n_workers ==> #[trigger] lane_free[w] <= time_bound(events.len() as int))
    &&& (forall|c: int|
        0 <= c < intervals.len() ==> #[trigger] reg.next_allowed@[c] <= time_bound(
            events.len() as int,
        ))
    &&& (forall|k: int|
        0 <= k < events.len() ==> (#[trigger] events[k]).finish <= time_bound(events.len() as int))
    &&& events.len() + remaining(lanes, pos, n_workers) <= jobs.len()
}

/// The per-job terminal statuses of a run, in batch order: a job of an
/// unregistered category is skipped; any other job executes and carries
/// what the facade reported for it.
pub fn job_statuses(jobs: &Vec<Job>, successes: &Vec<bool>, ncat: usize) -> (r: Vec<JobStatus>)
    requires
        successes@.len() == jobs@.len(),
    ensures
        r@.len() == jobs@.len(),
        forall|i: int|
            0 <= i < jobs@.len() ==> #[trigger] r@[i] == expected_status(
                jobs@[i],
                successes@[i],
                ncat as int,
            ),
{
    let mut r: Vec<JobStatus> = Vec::new();
    let mut i: usize = 0;
    while i < jobs.len()
        invariant
            i <= jobs@.len(),
            successes@.len() == jobs@.len(),
            r@.len() == i,
            forall|k: int|
                0 <= k < i ==> #[trigger] r@[k] == expected_status(
                    jobs@[k],
                    successes@[k],
                    ncat as int,
                ),
        decreases jobs@.len() - i,
    {
        if jobs[i].category >= ncat {
            r.push(JobStatus::UnknownCategory);
        } else if successes[i] {
            r.push(JobStatus::Completed);
        } else {
            r.push(JobStatus::ExecutionFailed);
        }
        i = i + 1;
    }
    r
}

/// What a whole run returns: the execution trace, in start order, and the
/// terminal status of every job of the batch, in batch order.
#[derive(Debug)]
pub struct RunReport {
    /// One record per execution, chronological.
    pub starts: Vec<StartEvent>,
    /// One terminal status per job of the batch.
    pub statuses: Vec<JobStatus>,
}

/// Runs the whole batch: routes every job to its worker's lane (failing
/// fast, before anything executes, when a job names a worker without a
/// lane), then drains all lanes under the three admission constraints.
/// The trace returned satisfies per-worker FIFO order, the per-category
/// start gap, the concurrency cap and lane sequentiality, and every
/// registered-category job appears in it.
pub fn run(
    n_workers: usize,
    intervals: &Vec<u64>,
    capacity: usize,
    jobs: &Vec<Job>,
    durations: &Vec<u64>,
    successes: &Vec<bool>,
) -> (r: Result<RunReport, UnknownWorker>)
    requires
        capacity >= 1,
        jobs@.len() <= MAX_BATCH,
        durations@.len() == jobs@.len(),
        successes@.len() == jobs@.len(),
        forall|i: int| 0 <= i < durations@.len() ==> #[trigger] durations@[i] <= MAX_TICK,
        forall|c: int| 0 <= c < intervals@.len() ==> #[trigger] intervals@[c] <= MAX_TICK,
    ensures
        (r is Err) == exists|i: int|
            0 <= i < jobs@.len() && (#[trigger] jobs@[i]).worker >= n_workers,
        r is Err ==> {
            &&& r->Err_0.job_index < jobs@.len()
            &&& jobs@[r->Err_0.job_index as int].worker == r->Err_0.worker
            &&& r->Err_0.worker >= n_workers
            &&& forall|i: int|
                0 <= i < r->Err_0.job_index ==> (#[trigger] jobs@[i]).worker < n_workers
        },
        r is Ok ==> {
            let rep = r->Ok_0;
            &&& rep.statuses@.len() == jobs@.len()
            &&& (forall|i: int|
                0 <= i < jobs@.len() ==> #[trigger] rep.statuses@[i] == expected_status(
                    jobs@[i],
                    successes@[i],
                    intervals@.len() as int,
                ))
            &&& events_wf(rep.starts@, jobs@, durations@, intervals@, n_workers as int)
            &&& trace_distinct(rep.starts@)
            &&& fifo_per_worker(rep.starts@, jobs@, n_workers as int, intervals@.len() as int)
            &&& rate_gap_respected(rep.starts@, intervals@)
            &&& capacity_respected(rep.starts@, capacity as int)
            &&& chronological(rep.starts@)
            &&& lanes_sequential(rep.starts@)
        },
{
    let lanes = match dispatch(jobs, n_workers) {
        Ok(l) => l,
        Err(e) => {
            return Err(e);
        },
    };
    let mut reg = RateLimiterRegistry::new(intervals);
    let mut gate = ConcurrencyAdmission::new(capacity);
    let mut pos: Vec<usize> = Vec::new();
    let mut lane_free: Vec<u64> = Vec::new();
    let mut w0: usize = 0;
    while w0 < n_workers
        invariant
            w0 <= n_workers,
            pos@.len() == w0,
            lane_free@.len() == w0,
            forall|w: int| 0 <= w < w0 ==> #[trigger] pos@[w] == 0,
            forall|w: int| 0 <= w < w0 ==> #[trigger] lane_free@[w] == 0,
        decreases n_workers - w0,
    {
        pos.push(0);
        lane_free.push(0);
        w0 = w0 + 1;
    }
    let mut now: u64 = 0;
    let mut events: Vec<StartEvent> = Vec::new();
    proof {
        assert(events@ =~= Seq::<StartEvent>::empty());
        assert(gate.finishes@ =~= Seq::<u64>::empty());
        lemma_remaining_init(lanes@, pos@, n_workers as int, jobs@);
        lemma_sum_routed_le(jobs@, n_workers as int);
        assert forall|w: int| 0 <= w < n_workers implies indices_of_worker(events@, w)
            == valid_indices(lanes@[w].inbox@.take(pos@[w] as int), intervals@.len() as int) by {
            assert(lanes@[w].inbox@.take(0) =~= Seq::<Routed>::empty());
        }
    }
    loop
        invariant
            sim_inv(
                lanes@,
                pos@,
                lane_free@,
                reg,
                gate,
                now,
                events@,
                jobs@,
                durations@,
                intervals@,
                capacity as int,
                n_workers as int,
            ),
        ensures
            sim_inv(
                lanes@,
                pos@,
                lane_free@,
                reg,
                gate,
                now,
                events@,
                jobs@,
                durations@,
                intervals@,
                capacity as int,
                n_workers as int,
            ),
            forall|w: int| 0 <= w < n_workers ==> #[trigger] pos@[w] == lanes@[w].inbox@.len(),
        decreases remaining(lanes@, pos@, n_workers as int),
    {
        let ghost rem0 = remaining(lanes@, pos@, n_workers as int);
        // Skip pass: report and pass over every pending job whose
        // category has no gate; such a job never delays its successors.
        let mut w: usize = 0;
        while w < n_workers
            invariant
                sim_inv(
                    lanes@,
                    pos@,
                    lane_free@,
                    reg,
                    gate,
                    now,
                    events@,
                    jobs@,
                    durations@,
                    intervals@,
                    capacity as int,
                    n_workers as int,
                ),
                w <= n_workers,
                heads_valid(lanes@, pos@, w as int, intervals@.len() as int),
                remaining(lanes@, pos@, n_workers as int) <= rem0,
            decreases n_workers - w,
        {
            while pos[w] < lanes[w].inbox.len() && !reg.is_registered(
                lanes[w].inbox[pos[w]].job.category,
            )
                invariant
                    sim_inv(
                        lanes@,
                        pos@,
                        lane_free@,
                        reg,
                        gate,
                        now,
                        events@,
                        jobs@,
                        durations@,
                        intervals@,
                        capacity as int,
                        n_workers as int,
                    ),
                    w < n_workers,
                    heads_valid(lanes@, pos@, w as int, intervals@.len() as int),
                    remaining(lanes@, pos@, n_workers as int) <= rem0,
                decreases lanes@[w as int].inbox@.len() - pos@[w as int],
            {
                let p = pos[w];
                proof {
                    lemma_valid_indices_take_step(
                        lanes@[w as int].inbox@,
                        p as int,
                        intervals@.len() as int,
                    );
                    lemma_remaining_advance(
                        lanes@,
                        pos@,
                        pos@.update(w as int, (p + 1) as usize),
                        n_workers as int,
                        w as int,
                    );
                }
                pos[w] = p + 1;
            }
            w = w + 1;
        }
        // Selection: among the lanes with a pending job, the one whose
        // job is ready soonest (lane free and category gate open), ties
        // to the lowest worker index.
        let mut best_w: usize = 0;
        let mut best_e: u64 = 0;
        let mut found: bool = false;
        let mut w2: usize = 0;
        while w2 < n_workers
            invariant
                sim_inv(
                    lanes@,
                    pos@,
                    lane_free@,
                    reg,
                    gate,
                    now,
                    events@,
                    jobs@,
                    durations@,
                    intervals@,
                    capacity as int,
                    n_workers as int,
                ),
                w2 <= n_workers,
                heads_valid(lanes@, pos@, n_workers as int, intervals@.len() as int),
                found ==> chosen_ok(
                    lanes@,
                    pos@,
                    lane_free@,
                    reg,
                    intervals@.len() as int,
                    n_workers as int,
                    best_w as int,
                    best_e,
                ),
                !found ==> forall|x: int|
                    0 <= x < w2 ==> #[trigger] pos@[x] >= lanes@[x].inbox@.len(),
            decreases n_workers - w2,
        {
            if pos[w2] < lanes[w2].inbox.len() {
                let cat = lanes[w2].inbox[pos[w2]].job.category;
                let lf = lane_free[w2];
                let na = reg.ready_at(cat);
                let e = if lf >= na {
                    lf
                } else {
                    na
                };
                if !found || e < best_e {
                    best_w = w2;
                    best_e = e;
                    found = true;
                }
            }
            w2 = w2 + 1;
        }
        if !found {
            break ;
        }
        // Start the chosen job: wait out the rate gate and the lane (both
        // folded into `best_e`), then wait for a concurrency unit.
        proof {
            lemma_worker_routed_entries(jobs@, best_w as int);
            lemma_remaining_ge_term(lanes@, pos@, n_workers as int, best_w as int);
        }
        let rj = lanes[best_w].inbox[pos[best_w]];
        let c = rj.job.category;
        let s0 = if best_e >= now {
            best_e
        } else {
            now
        };
        let s = gate.earliest_free(s0);
        proof {
            assert(events@.len() < jobs@.len());
            if s != s0 {
                let k = choose|k: int|
                    0 <= k < gate.finishes@.len() && gate.finishes@[k] == s;
                assert(gate.finishes@[k] == events@[k].finish);
            }
            assert(s <= time_bound(events@.len() as int));
            assert(time_bound(events@.len() as int) + 2 * MAX_TICK <= time_bound(
                events@.len() as int + 1,
            ));
            assert(time_bound(jobs@.len() as int) <= time_bound(MAX_BATCH as int));
        }
        let d = durations[rj.index];
        let f = s + d;
        let ev = StartEvent {
            index: rj.index,
            job_id: rj.job.id,
            worker: best_w,
            category: c,
            start: s,
            finish: f,
        };
        let ghost ev0 = events@;
        let ghost fin0 = gate.finishes@;
        let ghost pos0 = pos@;
        let p = pos[best_w];
        events.push(ev);
        gate.grant(f);
        reg.record_start(c, s);
        lane_free[best_w] = f;
        pos[best_w] = p + 1;
        now = s;
        proof {
            // the job just started was never started before: an earlier
            // event with its batch index would sit on the same lane's
            // handled prefix, whose indices are all smaller
            assert forall|k: int| 0 <= k < ev0.len() implies (#[trigger] ev0[k]).index != rj.index by {
                if ev0[k].index == rj.index {
                    assert(ev0[k].worker == best_w);
                    lemma_event_in_worker_indices(ev0, best_w as int, k);
                    let q2 = lanes@[best_w as int].inbox@.take(p as int);
                    lemma_valid_indices_entry(q2, intervals@.len() as int, rj.index as int);
                    let pp = choose|pp: int|
                        0 <= pp < q2.len() && (#[trigger] q2[pp]).index == rj.index as int
                            && q2[pp].job.category < intervals@.len();
                    lemma_worker_routed_monotone(jobs@, best_w as int, pp, p as int);
                }
            }
            lemma_trace_push(ev0, ev);
            lemma_valid_indices_take_step(
                lanes@[best_w as int].inbox@,
                p as int,
                intervals@.len() as int,
            );
            lemma_remaining_advance(
                lanes@,
                pos0,
                pos@,
                n_workers as int,
                best_w as int,
            );
            // the concurrency cap still holds at every instant
            assert forall|t: u64| count_active(events@, t) <= capacity as int by {
                if s <= t {
                    lemma_active_le_unfinished(ev0, t);
                    lemma_unfinished_antitone(ev0, s, t);
                    lemma_unfinished_matches_gt(ev0, fin0, s);
                }
            }
        }
    }
    proof {
        assert forall|w: int| 0 <= w < n_workers implies indices_of_worker(events@, w)
            == valid_indices(worker_routed(jobs@, w), intervals@.len() as int) by {
            assert(lanes@[w].inbox@.take(pos@[w] as int) =~= lanes@[w].inbox@);
        }
    }
    let statuses = job_statuses(jobs, successes, intervals.len());
    Ok(RunReport { starts: events, statuses })
}

/// Exactly-once execution over a whole run: with the trace's events
/// consistent with the batch, free of duplicates and FIFO per worker --
/// which every successful run guarantees -- a job whose category has a
/// gate starts exactly once, and a job whose category has none never
/// starts at all.
pub proof fn lemma_exactly_once(
    events: Seq<StartEvent>,
    jobs: Seq<Job>,
    durations: Seq<u64>,
    intervals: Seq<u64>,
    n_workers: int,
    i: int,
)
    requires
        jobs.len() <= usize::MAX,
        events_wf(events, jobs, durations, intervals, n_workers),
        fifo_per_worker(events, jobs, n_workers, intervals.len() as int),
        trace_distinct(events),
        0 <= i < jobs.len(),
        jobs[i].worker < n_workers,
    ensures
        jobs[i].category < intervals.len() ==> count_index(events, i) == 1,
        jobs[i].category >= intervals.len() ==> count_index(events, i) == 0,
{
    let w = jobs[i].worker as int;
    let ncat = intervals.len() as int;
    if jobs[i].category < intervals.len() {
        lemma_worker_routed_contains(jobs, w, i);
        let q = worker_routed(jobs, w);
        let p = choose|p: int|
            0 <= p < q.len() && #[trigger] q[p] == (Routed { index: i as usize, job: jobs[i] });
        lemma_valid_indices_contains(q, ncat, p);
        assert(indices_of_worker(events, w).contains(i));
        lemma_worker_indices_event(events, w, i);
        let k = choose|k: int|
            0 <= k < events.len() && (#[trigger] events[k]).index == i && events[k].worker == w;
        lemma_count_index_one(events, i, k);
    } else {
        assert forall|k: int| 0 <= k < events.len() implies (#[trigger] events[k]).index != i by {
            if events[k].index == i {
                assert(events[k].category == jobs[i].category);
                assert(events[k].category < intervals.len());
            }
        }
        lemma_count_index_zero(events, i);
    }
}

} // verus!

