//! A durable HTTP job queue and scheduler: jobs move between the `scheduled`,
//! `enqueued` and `processed` tables under retry and recurrence policies, and
//! multiple instances cooperate through leases and heartbeats.

pub mod directives;
pub mod errors;
pub mod job;
pub mod laws;
pub mod options;
pub mod result;
pub mod retry;
pub mod runner;
pub mod schedule;
pub mod store;
pub mod text;

use vstd::prelude::*;

verus! {

/// Largest epoch second the schedule computations accept (end of year 2100);
/// keeps every time calculation comfortably inside `i64`.
pub const MAX_EPOCH_SECS: i64 = 4_102_444_800;

} // verus!
