//! Paging for the read endpoints and the two option blocks the services run
//! under. Intervals are carried as plain milliseconds.

use vstd::prelude::*;

verus! {

/// Paging of a listing request.
#[derive(Debug, Clone, Copy, PartialEq, Eq, Structural)]
pub struct Paging {
    pub limit: Option<i32>,
    pub offset: Option<i32>,
}

impl Paging {
    /// The page size, with the endpoint's default.
    pub fn limit_or(&self, default: i32) -> (r: i32)
        ensures
            r == match self.limit {
                Some(v) => v,
                None => default,
            },
    {
        match self.limit {
            Some(v) => v,
            None => default,
        }
    }

    /// The page start, with the endpoint's default.
    pub fn offset_or(&self, default: i32) -> (r: i32)
        ensures
            r == match self.offset {
                Some(v) => v,
                None => default,
            },
    {
        match self.offset {
            Some(v) => v,
            None => default,
        }
    }
}

/// One page of a listing, echoing the paging used.
#[derive(Debug, Clone)]
pub struct PagingResult<T> {
    pub limit: i32,
    pub offset: i32,
    pub data: Vec<T>,
}

/// How the per-instance scheduler runs.
#[derive(Debug, Clone, Copy, PartialEq, Eq, Structural)]
pub struct SchedulerOptions {
    pub poll_interval_ms: u64,
    pub prefetch: u16,
}

impl Default for SchedulerOptions {
    /// One tick every five seconds, promoting up to a thousand rows.
    fn default() -> (r: SchedulerOptions)
        ensures
            r.poll_interval_ms == 5000,
            r.prefetch == 1000,
    {
        SchedulerOptions { poll_interval_ms: 5000, prefetch: 1000 }
    }
}

/// How the worker pool runs.
#[derive(Debug, Clone, Copy, PartialEq, Eq, Structural)]
pub struct WorkerOptions {
    pub workers_count: usize,
    pub poll_interval_ms: u64,
    pub prefetch: u16,
    pub timeout: u32,
}

impl Default for WorkerOptions {
    /// Eight workers polling every second, leasing eight rows at a time, with
    /// a three-second default job timeout.
    fn default() -> (r: WorkerOptions)
        ensures
            r.workers_count == 8,
            r.poll_interval_ms == 1000,
            r.prefetch == 8,
            r.timeout == 3000,
    {
        WorkerOptions { workers_count: 8, poll_interval_ms: 1000, prefetch: 8, timeout: 3000 }
    }
}

} // verus!
