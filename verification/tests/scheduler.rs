use lane_sched::job::{Job, JobStatus};
use lane_sched::sched::run;
use lane_sched::trace::StartEvent;

fn job(id: u64, worker: usize, category: usize) -> Job {
    Job { id, worker, category }
}

/// Checks the scheduling guarantees on a concrete trace by brute force:
/// per-worker FIFO (batch indices increase along each worker's events),
/// per-category start gaps, the concurrency cap at every start instant,
/// and that no batch index occurs twice.
fn check_trace(starts: &[StartEvent], intervals: &[u64], capacity: usize) {
    for a in 0..starts.len() {
        for b in (a + 1)..starts.len() {
            let (ea, eb) = (&starts[a], &starts[b]);
            assert!(ea.start <= eb.start, "trace must be chronological");
            assert_ne!(ea.index, eb.index, "a job must not execute twice");
            if ea.worker == eb.worker {
                assert!(ea.index < eb.index, "per-worker FIFO broken");
                assert!(ea.finish <= eb.start, "a lane ran two jobs at once");
            }
            if ea.category == eb.category {
                assert!(
                    eb.start >= ea.start + intervals[ea.category],
                    "rate-limit gap broken"
                );
            }
        }
    }
    for e in starts {
        let active = starts
            .iter()
            .filter(|o| o.start <= e.start && e.start < o.finish)
            .count();
        assert!(active <= capacity, "concurrency capacity exceeded");
    }
}

#[test]
fn two_workers_shared_category_capacity_one() {
    // Two workers, one category with interval 2, capacity 1: the first
    // job starts at once, the second two time units later, with no
    // overlap between the two execution windows.
    let jobs = vec![job(1, 0, 0), job(2, 1, 0)];
    let intervals = vec![2];
    let durations = vec![1, 1];
    let successes = vec![true, true];
    let rep = run(2, &intervals, 1, &jobs, &durations, &successes).unwrap();
    assert_eq!(rep.starts.len(), 2);
    assert_eq!(rep.starts[0].job_id, 1);
    assert_eq!(rep.starts[0].start, 0);
    assert_eq!(rep.starts[0].finish, 1);
    assert_eq!(rep.starts[1].job_id, 2);
    assert_eq!(rep.starts[1].start, 2);
    assert_eq!(rep.starts[1].finish, 3);
    assert!(rep.starts[0].finish <= rep.starts[1].start);
    check_trace(&rep.starts, &intervals, 1);
}

#[test]
fn one_worker_unthrottled_capacity_two() {
    // One worker, one category with interval 0, capacity 2, three jobs:
    // the lane is sequential, so the third job starts only after an
    // earlier one has finished, and no instant sees more than two
    // executions.
    let jobs = vec![job(1, 0, 0), job(2, 0, 0), job(3, 0, 0)];
    let intervals = vec![0];
    let durations = vec![5, 5, 5];
    let successes = vec![true, true, true];
    let rep = run(1, &intervals, 2, &jobs, &durations, &successes).unwrap();
    assert_eq!(rep.starts.len(), 3);
    assert_eq!(rep.starts[0].start, 0);
    assert_eq!(rep.starts[1].start, 5);
    assert_eq!(rep.starts[2].start, 10);
    assert!(rep.starts[2].start >= rep.starts[0].finish);
    check_trace(&rep.starts, &intervals, 2);
}

#[test]
fn capacity_delays_third_worker() {
    // Three workers, interval 0, capacity 2: the third start waits until
    // one of the first two executions releases its concurrency unit.
    let jobs = vec![job(1, 0, 0), job(2, 1, 0), job(3, 2, 0)];
    let intervals = vec![0];
    let durations = vec![10, 10, 10];
    let successes = vec![true, true, true];
    let rep = run(3, &intervals, 2, &jobs, &durations, &successes).unwrap();
    assert_eq!(rep.starts[0].start, 0);
    assert_eq!(rep.starts[1].start, 0);
    assert_eq!(rep.starts[2].start, 10);
    check_trace(&rep.starts, &intervals, 2);
}

#[test]
fn rate_gap_across_workers() {
    // One category with interval 3 shared by two workers: consecutive
    // starts of the category are at least three time units apart, even
    // across lanes.
    let jobs = vec![job(1, 0, 0), job(2, 1, 0), job(3, 0, 0)];
    let intervals = vec![3];
    let durations = vec![1, 1, 1];
    let successes = vec![true, true, true];
    let rep = run(2, &intervals, 3, &jobs, &durations, &successes).unwrap();
    assert_eq!(rep.starts.len(), 3);
    assert_eq!(rep.starts[0].start, 0);
    assert_eq!(rep.starts[1].start, 3);
    assert_eq!(rep.starts[2].start, 6);
    check_trace(&rep.starts, &intervals, 3);
}

#[test]
fn fifo_kept_per_worker() {
    // Interleaved batch over two workers: each worker sees its own jobs
    // in batch order, whatever the global interleaving.
    let jobs = vec![job(1, 0, 0), job(2, 1, 0), job(3, 0, 0), job(4, 1, 0)];
    let intervals = vec![0];
    let durations = vec![2, 2, 2, 2];
    let successes = vec![true, true, true, true];
    let rep = run(2, &intervals, 3, &jobs, &durations, &successes).unwrap();
    assert_eq!(rep.starts.len(), 4);
    let w0: Vec<u64> = rep
        .starts
        .iter()
        .filter(|e| e.worker == 0)
        .map(|e| e.job_id)
        .collect();
    let w1: Vec<u64> = rep
        .starts
        .iter()
        .filter(|e| e.worker == 1)
        .map(|e| e.job_id)
        .collect();
    assert_eq!(w0, vec![1, 3]);
    assert_eq!(w1, vec![2, 4]);
    check_trace(&rep.starts, &intervals, 3);
}

#[test]
fn unknown_category_is_skipped_without_delay() {
    // The first job names a category without a gate: it never executes,
    // is reported as such, and the next job of the same lane starts
    // immediately.
    let jobs = vec![job(1, 0, 5), job(2, 0, 0)];
    let intervals = vec![2];
    let durations = vec![9, 1];
    let successes = vec![true, true];
    let rep = run(1, &intervals, 1, &jobs, &durations, &successes).unwrap();
    assert_eq!(rep.starts.len(), 1);
    assert_eq!(rep.starts[0].job_id, 2);
    assert_eq!(rep.starts[0].start, 0);
    assert_eq!(rep.statuses[0], JobStatus::UnknownCategory);
    assert_eq!(rep.statuses[1], JobStatus::Completed);
}

#[test]
fn unknown_worker_fails_whole_dispatch() {
    // A job naming a worker without a lane aborts the run before
    // anything executes, reporting the first offender.
    let jobs = vec![job(1, 0, 0), job(2, 3, 0)];
    let intervals = vec![0];
    let durations = vec![1, 1];
    let successes = vec![true, true];
    let err = run(1, &intervals, 1, &jobs, &durations, &successes).unwrap_err();
    assert_eq!(err.job_index, 1);
    assert_eq!(err.worker, 3);
}

#[test]
fn execution_failure_does_not_block_lane() {
    // The facade reports failure for the first job: it is recorded
    // against that job alone and the lane proceeds to the next.
    let jobs = vec![job(1, 0, 0), job(2, 0, 0)];
    let intervals = vec![0];
    let durations = vec![1, 1];
    let successes = vec![false, true];
    let rep = run(1, &intervals, 2, &jobs, &durations, &successes).unwrap();
    assert_eq!(rep.starts.len(), 2);
    assert_eq!(rep.statuses[0], JobStatus::ExecutionFailed);
    assert_eq!(rep.statuses[1], JobStatus::Completed);
}

#[test]
fn full_batch_smoke() {
    // The full shape of the reference workload: six workers, three
    // categories with intervals 5, 3 and 2, capacity 3. Every job
    // executes exactly once and every guarantee holds on the trace.
    let mut jobs = Vec::new();
    let pattern = [0usize, 1, 0, 2, 0];
    let mut id = 1u64;
    for w in 0..6usize {
        for c in pattern.iter() {
            jobs.push(job(id, w, *c));
            id += 1;
        }
    }
    let intervals = vec![5, 3, 2];
    let durations: Vec<u64> = jobs.iter().map(|j| [3u64, 7, 5][j.category]).collect();
    let successes = vec![true; jobs.len()];
    let rep = run(6, &intervals, 3, &jobs, &durations, &successes).unwrap();
    assert_eq!(rep.starts.len(), 30);
    for st in &rep.statuses {
        assert_eq!(*st, JobStatus::Completed);
    }
    check_trace(&rep.starts, &intervals, 3);
}

#[test]
fn empty_batch_completes_with_nothing() {
    let jobs: Vec<Job> = Vec::new();
    let intervals = vec![1];
    let durations: Vec<u64> = Vec::new();
    let successes: Vec<bool> = Vec::new();
    let rep = run(3, &intervals, 2, &jobs, &durations, &successes).unwrap();
    assert!(rep.starts.is_empty());
    assert!(rep.statuses.is_empty());
}

#[test]
fn all_unknown_categories_execute_nothing() {
    let jobs = vec![job(1, 0, 3), job(2, 1, 4)];
    let intervals = vec![1];
    let durations = vec![1, 1];
    let successes = vec![true, true];
    let rep = run(2, &intervals, 1, &jobs, &durations, &successes).unwrap();
    assert!(rep.starts.is_empty());
    assert_eq!(rep.statuses[0], JobStatus::UnknownCategory);
    assert_eq!(rep.statuses[1], JobStatus::UnknownCategory);
}

#[test]
fn categories_gate_independently() {
    // A long interval on one category never delays another category:
    // the second job, of an unthrottled category, starts as soon as its
    // lane is free.
    let jobs = vec![job(1, 0, 0), job(2, 0, 1)];
    let intervals = vec![10, 0];
    let durations = vec![2, 2];
    let successes = vec![true, true];
    let rep = run(1, &intervals, 3, &jobs, &durations, &successes).unwrap();
    assert_eq!(rep.starts[0].start, 0);
    assert_eq!(rep.starts[1].start, 2);
    check_trace(&rep.starts, &intervals, 3);
}
