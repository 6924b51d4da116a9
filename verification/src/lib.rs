//! A verified model of a throttled job-dispatch system.
//!
//! A fixed batch of categorized jobs is routed to a fixed pool of workers.
//! Each worker owns a lane that executes its jobs strictly in arrival order;
//! every category is rate limited globally (a minimum interval between two
//! starts of that category, across all workers); and the number of jobs
//! executing at the same time is capped by a global concurrency budget.
//!
//! The modules below model each component on plain integer time and prove
//! the scheduling guarantees: per-lane FIFO order, the per-category start
//! gap, the concurrency cap, and that every valid job starts exactly once.
//!
//! Where each guarantee stands:
//! - `dispatch::dispatch` routes the batch and fails fast, before any
//!   lane holds anything, on a job naming a worker without a lane;
//! - `sched::run` returns the execution trace with FIFO order per worker
//!   (`sched::fifo_per_worker`), the minimum start gap per category
//!   (`sched::rate_gap_respected`), the cap on simultaneous executions
//!   (`sched::capacity_respected`), one job at a time per lane
//!   (`sched::lanes_sequential`), and no event for an unregistered
//!   category (`sched::events_wf`);
//! - `sched::lemma_exactly_once` proves that over a run each
//!   registered-category job starts exactly once and each unregistered
//!   one never.

pub mod admission;
pub mod dispatch;
pub mod job;
pub mod lane;
pub mod registry;
pub mod sched;
pub mod trace;
