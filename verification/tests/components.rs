use lane_sched::admission::ConcurrencyAdmission;
use lane_sched::dispatch::dispatch;
use lane_sched::job::Job;
use lane_sched::registry::RateLimiterRegistry;
use lane_sched::sched::job_statuses;
use lane_sched::job::JobStatus;

#[test]
fn registry_gates_open_then_close() {
    let intervals = vec![5, 3];
    let mut reg = RateLimiterRegistry::new(&intervals);
    assert!(reg.is_registered(0));
    assert!(reg.is_registered(1));
    assert!(!reg.is_registered(2));
    assert_eq!(reg.ready_at(0), 0);
    assert_eq!(reg.ready_at(1), 0);
    reg.record_start(0, 4);
    assert_eq!(reg.ready_at(0), 9);
    assert_eq!(reg.ready_at(1), 0);
    reg.record_start(1, 10);
    assert_eq!(reg.ready_at(1), 13);
    assert_eq!(reg.acquire_gate(1), Ok(13));
    let err = reg.acquire_gate(9).unwrap_err();
    assert_eq!(err.category, 9);
}

#[test]
fn admission_counts_and_waits() {
    let mut gate = ConcurrencyAdmission::new(2);
    assert_eq!(gate.in_flight_at(0), 0);
    assert_eq!(gate.earliest_free(0), 0);
    gate.grant(5);
    gate.grant(7);
    assert_eq!(gate.in_flight_at(4), 2);
    assert_eq!(gate.in_flight_at(5), 1);
    assert_eq!(gate.in_flight_at(7), 0);
    // both units taken until 5: the earliest free instant from 0 is 5
    assert_eq!(gate.earliest_free(0), 5);
    assert_eq!(gate.earliest_free(6), 6);
}

#[test]
fn dispatch_routes_in_batch_order() {
    let jobs = vec![
        Job { id: 1, worker: 1, category: 0 },
        Job { id: 2, worker: 0, category: 1 },
        Job { id: 3, worker: 1, category: 2 },
    ];
    let lanes = dispatch(&jobs, 2).unwrap();
    assert_eq!(lanes.len(), 2);
    let ids0: Vec<u64> = lanes[0].inbox.iter().map(|r| r.job.id).collect();
    let ids1: Vec<u64> = lanes[1].inbox.iter().map(|r| r.job.id).collect();
    assert_eq!(ids0, vec![2]);
    assert_eq!(ids1, vec![1, 3]);
    assert_eq!(lanes[1].inbox[0].index, 0);
    assert_eq!(lanes[1].inbox[1].index, 2);
}

#[test]
fn dispatch_reports_first_unknown_worker() {
    let jobs = vec![
        Job { id: 1, worker: 0, category: 0 },
        Job { id: 2, worker: 9, category: 0 },
        Job { id: 3, worker: 8, category: 0 },
    ];
    let err = dispatch(&jobs, 1).unwrap_err();
    assert_eq!(err.job_index, 1);
    assert_eq!(err.worker, 9);
}

#[test]
fn statuses_follow_category_and_outcome() {
    let jobs = vec![
        Job { id: 1, worker: 0, category: 0 },
        Job { id: 2, worker: 0, category: 7 },
        Job { id: 3, worker: 0, category: 1 },
    ];
    let successes = vec![true, true, false];
    let statuses = job_statuses(&jobs, &successes, 2);
    assert_eq!(statuses[0], JobStatus::Completed);
    assert_eq!(statuses[1], JobStatus::UnknownCategory);
    assert_eq!(statuses[2], JobStatus::ExecutionFailed);
}
