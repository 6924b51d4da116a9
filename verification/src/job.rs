//! The job batch and its error taxonomy.
//!
//! Workers and categories come from fixed, statically known sets, so the
//! model identifies each by its index: a worker id is an index below the
//! worker count, a category id an index into the table of configured
//! category intervals.

use vstd::prelude::*;

verus! {

/// One job of the input batch: an id (unique within the batch), the worker
/// whose lane must run it, and its rate-limit category.
#[derive(Clone, Copy, PartialEq, Eq, Structural, Debug)]
pub struct Job {
    pub id: u64,
    pub worker: usize,
    pub category: usize,
}

/// A structural error of the whole batch: some job names a worker with no
/// lane. Dispatch fails fast, before any job executes.
#[derive(Clone, Copy, PartialEq, Eq, Structural, Debug)]
pub struct UnknownWorker {
    /// Index into the batch of the first offending job.
    pub job_index: usize,
    /// The worker id that no lane exists for.
    pub worker: usize,
}

/// The registry's refusal when asked for a category it has no gate for:
/// a programming error of the caller, which must validate the category
/// first.
#[derive(Clone, Copy, PartialEq, Eq, Structural, Debug)]
pub struct UnknownCategoryError {
    /// The category id that no gate is configured for.
    pub category: usize,
}

/// The terminal status of one job after a run.
#[derive(Clone, Copy, PartialEq, Eq, Structural, Debug)]
pub enum JobStatus {
    /// The job was admitted and its execution reported success.
    Completed,
    /// The job was admitted and its execution reported failure; the lane
    /// went on to the next job regardless.
    ExecutionFailed,
    /// The job named a category with no configured rate limiter; its lane
    /// skipped it without invoking the execution facade.
    UnknownCategory,
}

} // verus!
