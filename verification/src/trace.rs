//! The observable trace of a run: one record per execution start, in
//! chronological order, and the spec functions that the scheduling
//! guarantees are stated over.

use vstd::prelude::*;

verus! {

/// One execution of a job: the lane popped it, the rate limiter and the
/// concurrency gate admitted it, and the execution facade ran from `start`
/// to `finish`.
#[derive(Clone, Copy, PartialEq, Eq, Structural, Debug)]
pub struct StartEvent {
    /// Index of the job in the input batch.
    pub index: usize,
    /// The job's id.
    pub job_id: u64,
    /// The worker whose lane ran the job.
    pub worker: usize,
    /// The job's rate-limit category.
    pub category: usize,
    /// The instant the execution started.
    pub start: u64,
    /// The instant the execution finished and its concurrency unit was
    /// released.
    pub finish: u64,
}

/// The job of event `e` is executing at instant `t`: it holds its
/// concurrency unit over the half-open window from its start (inclusive)
/// to its finish (exclusive).
pub open spec fn is_active(e: StartEvent, t: u64) -> bool {
    e.start <= t < e.finish
}

/// How many executions of the trace are running at instant `t`.
pub open spec fn count_active(s: Seq<StartEvent>, t: u64) -> nat
    decreases s.len(),
{
    if s.len() == 0 {
        0
    } else {
        count_active(s.drop_last(), t) + if is_active(s.last(), t) {
            1nat
        } else {
            0nat
        }
    }
}

/// How many executions of the trace finish strictly after instant `t`.
/// When every start of the trace is at or before `t`, this is the number
/// of executions running at `t`.
pub open spec fn count_unfinished(s: Seq<StartEvent>, t: u64) -> nat
    decreases s.len(),
{
    if s.len() == 0 {
        0
    } else {
        count_unfinished(s.drop_last(), t) + if s.last().finish > t {
            1nat
        } else {
            0nat
        }
    }
}

/// The batch indices of the trace's events that ran on worker `w`, in
/// trace order.
pub open spec fn indices_of_worker(s: Seq<StartEvent>, w: int) -> Seq<int>
    decreases s.len(),
{
    if s.len() == 0 {
        Seq::empty()
    } else {
        indices_of_worker(s.drop_last(), w) + if s.last().worker == w {
            seq![s.last().index as int]
        } else {
            Seq::empty()
        }
    }
}

/// How often batch index `i` occurs in the trace.
pub open spec fn count_index(s: Seq<StartEvent>, i: int) -> nat
    decreases s.len(),
{
    if s.len() == 0 {
        0
    } else {
        count_index(s.drop_last(), i) + if s.last().index == i {
            1nat
        } else {
            0nat
        }
    }
}

/// Appending an event adds its contribution to each counting function and
/// to its worker's index sequence.
pub proof fn lemma_trace_push(s: Seq<StartEvent>, e: StartEvent)
    ensures
        forall|t: u64|
            count_active(#[trigger] s.push(e), t) == count_active(s, t) + if is_active(e, t) {
                1nat
            } else {
                0nat
            },
        forall|t: u64|
            count_unfinished(#[trigger] s.push(e), t) == count_unfinished(s, t) + if e.finish > t {
                1nat
            } else {
                0nat
            },
        forall|w: int|
            indices_of_worker(#[trigger] s.push(e), w) == indices_of_worker(s, w) + if e.worker
                == w {
                seq![e.index as int]
            } else {
                Seq::<int>::empty()
            },
        forall|i: int|
            count_index(#[trigger] s.push(e), i) == count_index(s, i) + if e.index == i {
                1nat
            } else {
                0nat
            },
{
    assert(s.push(e).drop_last() =~= s);
    assert(s.push(e).last() == e);
}

/// No batch index occurs twice in the trace: no job is executed twice.
pub open spec fn trace_distinct(events: Seq<StartEvent>) -> bool {
    forall|k1: int, k2: int|
        0 <= k1 < k2 < events.len() ==> (#[trigger] events[k1]).index != (
        #[trigger] events[k2]).index
}

/// An event's batch index stands in its worker's index sequence.
pub proof fn lemma_event_in_worker_indices(s: Seq<StartEvent>, w: int, k: int)
    requires
        0 <= k < s.len(),
        s[k].worker == w,
    ensures
        indices_of_worker(s, w).contains(s[k].index as int),
    decreases s.len(),
{
    let ind = indices_of_worker(s, w);
    let indd = indices_of_worker(s.drop_last(), w);
    if k == s.len() - 1 {
        assert(s.last() == s[k]);
        assert(ind[indd.len() as int] == s[k].index as int);
    } else {
        assert(s.drop_last()[k] == s[k]);
        lemma_event_in_worker_indices(s.drop_last(), w, k);
        let p = choose|p: int| 0 <= p < indd.len() && indd[p] == s[k].index as int;
        assert(ind[p] == s[k].index as int);
    }
}

/// A batch index in a worker's index sequence comes from an event of that
/// worker.
pub proof fn lemma_worker_indices_event(s: Seq<StartEvent>, w: int, x: int)
    requires
        indices_of_worker(s, w).contains(x),
    ensures
        exists|k: int| 0 <= k < s.len() && (#[trigger] s[k]).index == x && s[k].worker == w,
    decreases s.len(),
{
    let ind = indices_of_worker(s, w);
    let indd = indices_of_worker(s.drop_last(), w);
    let p = choose|p: int| 0 <= p < ind.len() && ind[p] == x;
    if p < indd.len() {
        assert(indd[p] == x);
        lemma_worker_indices_event(s.drop_last(), w, x);
        let k = choose|k: int|
            0 <= k < s.drop_last().len() && (#[trigger] s.drop_last()[k]).index == x
                && s.drop_last()[k].worker == w;
        assert(s[k].index == x && s[k].worker == w);
    } else {
        assert(s.last().worker == w && s.last().index as int == x);
        assert(s[s.len() - 1].index == x && s[s.len() - 1].worker == w);
    }
}

/// A batch index occurring nowhere in the trace counts zero times.
pub proof fn lemma_count_index_zero(s: Seq<StartEvent>, i: int)
    requires
        forall|k: int| 0 <= k < s.len() ==> (#[trigger] s[k]).index != i,
    ensures
        count_index(s, i) == 0,
    decreases s.len(),
{
    if s.len() > 0 {
        assert(forall|k: int|
            0 <= k < s.drop_last().len() ==> (#[trigger] s.drop_last()[k]) == s[k]);
        lemma_count_index_zero(s.drop_last(), i);
        assert(s[s.len() - 1] == s.last());
    }
}

/// In a trace without duplicates, a batch index that occurs at all counts
/// exactly once.
pub proof fn lemma_count_index_one(s: Seq<StartEvent>, i: int, k0: int)
    requires
        trace_distinct(s),
        0 <= k0 < s.len(),
        s[k0].index == i,
    ensures
        count_index(s, i) == 1,
    decreases s.len(),
{
    assert(forall|k: int|
        0 <= k < s.drop_last().len() ==> (#[trigger] s.drop_last()[k]) == s[k]);
    if k0 == s.len() - 1 {
        assert(forall|k: int| 0 <= k < s.len() - 1 ==> (#[trigger] s[k]).index != i);
        lemma_count_index_zero(s.drop_last(), i);
        assert(s.last() == s[k0]);
    } else {
        lemma_count_index_one(s.drop_last(), i, k0);
        assert(s[s.len() - 1] == s.last());
        assert(s.last().index != i);
    }
}

/// An execution that is active at `t` has not finished by `t`.
pub proof fn lemma_active_le_unfinished(s: Seq<StartEvent>, t: u64)
    ensures
        count_active(s, t) <= count_unfinished(s, t),
    decreases s.len(),
{
    if s.len() > 0 {
        lemma_active_le_unfinished(s.drop_last(), t);
    }
}

/// Later instants have no more unfinished executions.
pub proof fn lemma_unfinished_antitone(s: Seq<StartEvent>, t1: u64, t2: u64)
    requires
        t1 <= t2,
    ensures
        count_unfinished(s, t2) <= count_unfinished(s, t1),
    decreases s.len(),
{
    if s.len() > 0 {
        lemma_unfinished_antitone(s.drop_last(), t1, t2);
    }
}

} // verus!
