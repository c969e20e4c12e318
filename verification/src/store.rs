//! The queue store: the seven logical tables and their atomic transitions.
//!
//! Each mutating method models one single-statement transition of the real
//! store: the affected tables change together, a history row is written for
//! every transition that moves a job between tables, and well-formedness is
//! preserved throughout.

use vstd::prelude::*;

use crate::errors::Error;
use crate::job::{JobCreate, JobCreateRow, JobEntry, JobRow};
use crate::result::{JobResult, JobResultMeta, ProcessedStatus};
use crate::schedule::ScheduleRow;

verus! {

/// A row of the `scheduled` table: a job waiting for its due time.
#[derive(Debug, Clone, PartialEq)]
pub struct ScheduledRow {
    pub id: i64,
    pub at: i64,
    pub retry: i32,
}

/// A row of the `enqueued` table. A null `lock_at` means free; a set
/// `lock_at` means leased by `instance_id` at that time.
#[derive(Debug, Clone, PartialEq)]
pub struct EnqueuedRow {
    pub id: i64,
    pub retry: i32,
    pub instance_id: Option<String>,
    pub lock_at: Option<i64>,
}

/// A row of the `processed` table: the terminal record of one job.
#[derive(Debug, Clone)]
pub struct ProcessedRow {
    pub id: i64,
    pub retry: i32,
    pub instance_id: Option<String>,
    pub at: i64,
    pub status: ProcessedStatus,
    pub meta: JobResultMeta,
    pub headers: Option<Vec<(String, String)>>,
    pub body: Option<Vec<u8>>,
}

/// The statuses the history journal records.
#[derive(Debug, Clone, Copy, PartialEq, Eq, Structural)]
pub enum HistoryStatus {
    Enqueued,
    Scheduled,
    Assigned,
    Retried,
    Completed,
    Failed,
    Cancelled,
}

/// A row of the append-only `history` journal.
#[derive(Debug, Clone)]
pub struct JobHistoryRow {
    pub id: i64,
    pub retry: i32,
    pub instance_id: Option<String>,
    pub at: i64,
    pub status: HistoryStatus,
    pub message: Option<String>,
}

/// Liveness of a cooperating service instance.
#[derive(Debug, Clone, Copy, PartialEq, Eq, Structural)]
pub enum InstanceStatus {
    Live,
    Dead,
}

/// A row of the `instances` table: one cooperating process.
#[derive(Debug, Clone)]
pub struct InstanceRow {
    pub id: String,
    pub status: InstanceStatus,
    pub last_at: i64,
}

/// The terminal history status a processed status journals as.
pub open spec fn history_of_status(s: ProcessedStatus) -> HistoryStatus {
    match s {
        ProcessedStatus::Completed => HistoryStatus::Completed,
        ProcessedStatus::Failed => HistoryStatus::Failed,
        ProcessedStatus::Cancelled => HistoryStatus::Cancelled,
    }
}

/// Whether a history status is terminal.
pub open spec fn is_terminal(s: HistoryStatus) -> bool {
    s == HistoryStatus::Completed || s == HistoryStatus::Failed || s == HistoryStatus::Cancelled
}

/// The view of an optional owned string.
pub open spec fn opt_view(o: Option<String>) -> Option<Seq<char>> {
    match o {
        Some(s) => Some(s@),
        None => None,
    }
}

/// `(retry, id)` order: fresh work before repeatedly failing work.
pub open spec fn lex_before(r1: i32, id1: i64, r2: i32, id2: i64) -> bool {
    r1 < r2 || (r1 == r2 && id1 < id2)
}

/// The whole store.
#[derive(Debug)]
pub struct QueueState {
    /// The next job id the store will assign.
    pub next_job_id: i64,
    pub jobs: Vec<JobRow>,
    pub scheduled: Vec<ScheduledRow>,
    pub enqueued: Vec<EnqueuedRow>,
    pub processed: Vec<ProcessedRow>,
    pub schedules: Vec<ScheduleRow>,
    pub history: Vec<JobHistoryRow>,
    pub instances: Vec<InstanceRow>,
}

impl QueueState {
    pub open spec fn has_job(&self, id: i64) -> bool {
        exists|i: int| 0 <= i < self.jobs@.len() && (#[trigger] self.jobs@[i]).id == id
    }

    pub open spec fn job_idx(&self, id: i64) -> int {
        choose|i: int| 0 <= i < self.jobs@.len() && (#[trigger] self.jobs@[i]).id == id
    }

    pub open spec fn job_at(&self, id: i64) -> JobRow {
        self.jobs@[self.job_idx(id)]
    }

    pub open spec fn has_scheduled(&self, id: i64) -> bool {
        exists|i: int| 0 <= i < self.scheduled@.len() && (#[trigger] self.scheduled@[i]).id == id
    }

    pub open spec fn scheduled_idx(&self, id: i64) -> int {
        choose|i: int| 0 <= i < self.scheduled@.len() && (#[trigger] self.scheduled@[i]).id == id
    }

    pub open spec fn scheduled_at(&self, id: i64) -> ScheduledRow {
        self.scheduled@[self.scheduled_idx(id)]
    }

    pub open spec fn has_enqueued(&self, id: i64) -> bool {
        exists|i: int| 0 <= i < self.enqueued@.len() && (#[trigger] self.enqueued@[i]).id == id
    }

    pub open spec fn enq_idx(&self, id: i64) -> int {
        choose|i: int| 0 <= i < self.enqueued@.len() && (#[trigger] self.enqueued@[i]).id == id
    }

    pub open spec fn enq_at(&self, id: i64) -> EnqueuedRow {
        self.enqueued@[self.enq_idx(id)]
    }

    pub open spec fn has_processed(&self, id: i64) -> bool {
        exists|i: int| 0 <= i < self.processed@.len() && (#[trigger] self.processed@[i]).id == id
    }

    pub open spec fn has_external(&self, e: Seq<char>) -> bool {
        exists|i: int|
            0 <= i < self.jobs@.len() && ((#[trigger] self.jobs@[i]).external_id matches Some(x)
                && x@ == e)
    }

    pub open spec fn ext_idx(&self, e: Seq<char>) -> int {
        choose|i: int|
            0 <= i < self.jobs@.len() && ((#[trigger] self.jobs@[i]).external_id matches Some(x)
                && x@ == e)
    }

    pub open spec fn has_schedule_row(&self, sid: Seq<char>) -> bool {
        exists|i: int|
            0 <= i < self.schedules@.len() && (#[trigger] self.schedules@[i]).schedule_id@ == sid
    }

    pub open spec fn schedule_row_idx(&self, sid: Seq<char>) -> int {
        choose|i: int|
            0 <= i < self.schedules@.len() && (#[trigger] self.schedules@[i]).schedule_id@ == sid
    }

    pub open spec fn schedule_row_at(&self, sid: Seq<char>) -> ScheduleRow {
        self.schedules@[self.schedule_row_idx(sid)]
    }

    pub open spec fn has_instance(&self, iid: Seq<char>) -> bool {
        exists|i: int| 0 <= i < self.instances@.len() && (#[trigger] self.instances@[i]).id@ == iid
    }

    pub open spec fn instance_idx(&self, iid: Seq<char>) -> int {
        choose|i: int| 0 <= i < self.instances@.len() && (#[trigger] self.instances@[i]).id@ == iid
    }

    /// The job id is in one of the three state tables.
    pub open spec fn job_located(&self, id: i64) -> bool {
        self.has_scheduled(id) || self.has_enqueued(id) || self.has_processed(id)
    }

    /// Well-formedness of the whole store.
    pub open spec fn wf(&self) -> bool {
        &&& 0 < self.next_job_id
        &&& forall|i: int| 0 <= i < self.jobs@.len() ==> self.job_located(
            (#[trigger] self.jobs@[i]).id,
        )
        &&& forall|i: int, j: int|
            #![trigger self.jobs@[i], self.jobs@[j]]
            0 <= i < j < self.jobs@.len() ==> self.jobs@[i].id != self.jobs@[j].id
        &&& forall|i: int| 0 <= i < self.jobs@.len() ==> 0 < (#[trigger] self.jobs@[i]).id
            < self.next_job_id
        &&& forall|i: int| 0 <= i < self.processed@.len() ==> 0 < (#[trigger] self.processed@[i]).id
            < self.next_job_id
        &&& forall|i: int, j: int|
            #![trigger self.jobs@[i], self.jobs@[j]]
            0 <= i < j < self.jobs@.len() ==> !(self.jobs@[i].external_id matches Some(a)
                && self.jobs@[j].external_id matches Some(b) && a@ == b@)
        &&& forall|i: int, j: int|
            #![trigger self.scheduled@[i], self.scheduled@[j]]
            0 <= i < j < self.scheduled@.len() ==> self.scheduled@[i].id != self.scheduled@[j].id
        &&& forall|i: int, j: int|
            #![trigger self.enqueued@[i], self.enqueued@[j]]
            0 <= i < j < self.enqueued@.len() ==> self.enqueued@[i].id != self.enqueued@[j].id
        &&& forall|i: int, j: int|
            #![trigger self.processed@[i], self.processed@[j]]
            0 <= i < j < self.processed@.len() ==> self.processed@[i].id != self.processed@[j].id
        &&& forall|i: int| 0 <= i < self.scheduled@.len() ==> self.has_job(
            (#[trigger] self.scheduled@[i]).id,
        )
        &&& forall|i: int| 0 <= i < self.enqueued@.len() ==> self.has_job(
            (#[trigger] self.enqueued@[i]).id,
        )
        &&& forall|i: int, j: int|
            #![trigger self.scheduled@[i], self.enqueued@[j]]
            0 <= i < self.scheduled@.len() && 0 <= j < self.enqueued@.len()
                ==> self.scheduled@[i].id != self.enqueued@[j].id
        &&& forall|i: int, j: int|
            #![trigger self.scheduled@[i], self.processed@[j]]
            0 <= i < self.scheduled@.len() && 0 <= j < self.processed@.len()
                ==> self.scheduled@[i].id != self.processed@[j].id
        &&& forall|i: int, j: int|
            #![trigger self.enqueued@[i], self.processed@[j]]
            0 <= i < self.enqueued@.len() && 0 <= j < self.processed@.len()
                ==> self.enqueued@[i].id != self.processed@[j].id
        &&& forall|i: int| 0 <= i < self.enqueued@.len()
            ==> ((#[trigger] self.enqueued@[i]).lock_at is Some
            ==> self.enqueued@[i].instance_id is Some)
        &&& forall|i: int| 0 <= i < self.scheduled@.len() ==> (#[trigger] self.scheduled@[i]).retry
            >= 0
        &&& forall|i: int| 0 <= i < self.enqueued@.len() ==> (#[trigger] self.enqueued@[i]).retry
            >= 0
        &&& forall|i: int| 0 <= i < self.processed@.len() ==> (#[trigger] self.processed@[i]).retry
            >= 0
        &&& forall|i: int, j: int|
            #![trigger self.schedules@[i], self.schedules@[j]]
            0 <= i < j < self.schedules@.len() ==> self.schedules@[i].schedule_id@
                != self.schedules@[j].schedule_id@
        &&& forall|i: int, j: int|
            #![trigger self.instances@[i], self.instances@[j]]
            0 <= i < j < self.instances@.len() ==> self.instances@[i].id@ != self.instances@[j].id@
        &&& forall|i: int|
            0 <= i < self.history@.len() && is_terminal((#[trigger] self.history@[i]).status)
                ==> self.has_processed(self.history@[i].id)
    }

    /// A fresh, empty store.
    pub fn new() -> (r: QueueState)
        ensures
            r.wf(),
            r.next_job_id == 1,
            r.jobs@.len() == 0,
            r.scheduled@.len() == 0,
            r.enqueued@.len() == 0,
            r.processed@.len() == 0,
            r.schedules@.len() == 0,
            r.history@.len() == 0,
            r.instances@.len() == 0,
    {
        QueueState {
            next_job_id: 1,
            jobs: Vec::new(),
            scheduled: Vec::new(),
            enqueued: Vec::new(),
            processed: Vec::new(),
            schedules: Vec::new(),
            history: Vec::new(),
            instances: Vec::new(),
        }
    }


    /// Every job keeps a location when the three state tables keep the same
    /// ids at the same positions.
    proof fn lemma_located_same_ids(&self, pre: &QueueState)
        requires
            forall|i: int| 0 <= i < pre.jobs@.len() ==> pre.job_located(
                (#[trigger] pre.jobs@[i]).id,
            ),
            self.jobs@ == pre.jobs@,
            self.scheduled@.len() == pre.scheduled@.len(),
            forall|i: int| 0 <= i < pre.scheduled@.len() ==> (#[trigger] self.scheduled@[i]).id
                == pre.scheduled@[i].id,
            self.enqueued@.len() == pre.enqueued@.len(),
            forall|i: int| 0 <= i < pre.enqueued@.len() ==> (#[trigger] self.enqueued@[i]).id
                == pre.enqueued@[i].id,
            self.processed@.len() == pre.processed@.len(),
            forall|i: int| 0 <= i < pre.processed@.len() ==> (#[trigger] self.processed@[i]).id
                == pre.processed@[i].id,
        ensures
            forall|i: int| 0 <= i < self.jobs@.len() ==> self.job_located(
                (#[trigger] self.jobs@[i]).id,
            ),
    {
        assert forall|i: int| 0 <= i < self.jobs@.len() implies self.job_located(
            (#[trigger] self.jobs@[i]).id,
        ) by {
            let id = pre.jobs@[i].id;
            assert(pre.job_located(id));
            if pre.has_scheduled(id) {
                let w = choose|w: int|
                    0 <= w < pre.scheduled@.len() && (#[trigger] pre.scheduled@[w]).id == id;
                assert(self.scheduled@[w].id == id);
            } else if pre.has_enqueued(id) {
                let w = choose|w: int|
                    0 <= w < pre.enqueued@.len() && (#[trigger] pre.enqueued@[w]).id == id;
                assert(self.enqueued@[w].id == id);
            } else {
                let w = choose|w: int|
                    0 <= w < pre.processed@.len() && (#[trigger] pre.processed@[w]).id == id;
                assert(self.processed@[w].id == id);
            }
        }
    }

    /// Finds the position of a job id in `enqueued`.
    fn find_enqueued(&self, id: i64) -> (r: Option<usize>)
        ensures
            r is Some <==> self.has_enqueued(id),
            r matches Some(i) ==> 0 <= i < self.enqueued@.len() && self.enqueued@[i as int].id
                == id,
            self.wf() ==> (r matches Some(i) ==> i == self.enq_idx(id)),
    {
        let mut i: usize = 0;
        while i < self.enqueued.len()
            invariant
                0 <= i <= self.enqueued@.len(),
                forall|k: int| 0 <= k < i ==> (#[trigger] self.enqueued@[k]).id != id,
            decreases self.enqueued@.len() - i,
        {
            if self.enqueued[i].id == id {
                proof {
                    if self.wf() {
                        let c = self.enq_idx(id);
                        assert(0 <= c < self.enqueued@.len() && self.enqueued@[c].id == id);
                    }
                }
                return Some(i);
            }
            i = i + 1;
        }
        None
    }

    /// Finds the position of a job id in `scheduled`.
    fn find_scheduled(&self, id: i64) -> (r: Option<usize>)
        ensures
            r is Some <==> self.has_scheduled(id),
            r matches Some(i) ==> 0 <= i < self.scheduled@.len() && self.scheduled@[i as int].id
                == id,
            self.wf() ==> (r matches Some(i) ==> i == self.scheduled_idx(id)),
    {
        let mut i: usize = 0;
        while i < self.scheduled.len()
            invariant
                0 <= i <= self.scheduled@.len(),
                forall|k: int| 0 <= k < i ==> (#[trigger] self.scheduled@[k]).id != id,
            decreases self.scheduled@.len() - i,
        {
            if self.scheduled[i].id == id {
                proof {
                    if self.wf() {
                        let c = self.scheduled_idx(id);
                        assert(0 <= c < self.scheduled@.len() && self.scheduled@[c].id == id);
                    }
                }
                return Some(i);
            }
            i = i + 1;
        }
        None
    }

    /// Finds the position of a job id in `jobs`.
    fn find_job(&self, id: i64) -> (r: Option<usize>)
        ensures
            r is Some <==> self.has_job(id),
            r matches Some(i) ==> 0 <= i < self.jobs@.len() && self.jobs@[i as int].id == id,
            self.wf() ==> (r matches Some(i) ==> i == self.job_idx(id)),
    {
        let mut i: usize = 0;
        while i < self.jobs.len()
            invariant
                0 <= i <= self.jobs@.len(),
                forall|k: int| 0 <= k < i ==> (#[trigger] self.jobs@[k]).id != id,
            decreases self.jobs@.len() - i,
        {
            if self.jobs[i].id == id {
                proof {
                    if self.wf() {
                        let c = self.job_idx(id);
                        assert(0 <= c < self.jobs@.len() && self.jobs@[c].id == id);
                    }
                }
                return Some(i);
            }
            i = i + 1;
        }
        None
    }

    /// Finds the position of an instance id.
    fn find_instance(&self, iid: &str) -> (r: Option<usize>)
        ensures
            r is Some <==> self.has_instance(iid@),
            r matches Some(i) ==> 0 <= i < self.instances@.len() && self.instances@[i as int].id@
                == iid@,
            self.wf() ==> (r matches Some(i) ==> i == self.instance_idx(iid@)),
    {
        let mut i: usize = 0;
        while i < self.instances.len()
            invariant
                0 <= i <= self.instances@.len(),
                forall|k: int| 0 <= k < i ==> (#[trigger] self.instances@[k]).id@ != iid@,
            decreases self.instances@.len() - i,
        {
            if str_eq(self.instances[i].id.as_str(), iid) {
                proof {
                    if self.wf() {
                        let c = self.instance_idx(iid@);
                        assert(0 <= c < self.instances@.len() && self.instances@[c].id@ == iid@);
                    }
                }
                return Some(i);
            }
            i = i + 1;
        }
        None
    }

    /// Finds the position of a schedule id.
    pub(crate) fn find_schedule_row(&self, sid: &str) -> (r: Option<usize>)
        ensures
            r is Some <==> self.has_schedule_row(sid@),
            r matches Some(i) ==> 0 <= i < self.schedules@.len()
                && self.schedules@[i as int].schedule_id@ == sid@,
            self.wf() ==> (r matches Some(i) ==> i == self.schedule_row_idx(sid@)),
    {
        let mut i: usize = 0;
        while i < self.schedules.len()
            invariant
                0 <= i <= self.schedules@.len(),
                forall|k: int| 0 <= k < i ==> (#[trigger] self.schedules@[k]).schedule_id@ != sid@,
            decreases self.schedules@.len() - i,
        {
            if str_eq(self.schedules[i].schedule_id.as_str(), sid) {
                proof {
                    if self.wf() {
                        let c = self.schedule_row_idx(sid@);
                        assert(0 <= c < self.schedules@.len() && self.schedules@[c].schedule_id@
                            == sid@);
                    }
                }
                return Some(i);
            }
            i = i + 1;
        }
        None
    }
}


/// What the heartbeat does: refreshes `last_at` of the caller's row, or
/// inserts a fresh live row; nothing else changes.
pub open spec fn live_rel(pre: QueueState, post: QueueState, inst: Seq<char>, now: i64) -> bool {
    &&& post.next_job_id == pre.next_job_id
    &&& post.jobs@ == pre.jobs@
    &&& post.scheduled@ == pre.scheduled@
    &&& post.enqueued@ == pre.enqueued@
    &&& post.processed@ == pre.processed@
    &&& post.schedules@ == pre.schedules@
    &&& post.history@ == pre.history@
    &&& (pre.has_instance(inst) ==> post.instances@ == pre.instances@.update(
        pre.instance_idx(inst),
        (InstanceRow {
            id: pre.instances@[pre.instance_idx(inst)].id,
            status: pre.instances@[pre.instance_idx(inst)].status,
            last_at: now,
        }),
    ))
    &&& (!pre.has_instance(inst) ==> {
        &&& post.instances@.len() == pre.instances@.len() + 1
        &&& post.instances@.subrange(0, pre.instances@.len() as int) == pre.instances@
        &&& post.instances@.last().id@ == inst
        &&& post.instances@.last().status == InstanceStatus::Live
        &&& post.instances@.last().last_at == now
    })
}

/// What fencing does: every expired live instance goes dead and the leases it
/// held are re-opened one retry level up; `r` counts the fenced instances.
pub open spec fn fence_rel(pre: QueueState, post: QueueState, now: i64, ttl: i64, r: u64) -> bool {
    &&& post.next_job_id == pre.next_job_id
    &&& post.jobs@ == pre.jobs@
    &&& post.scheduled@ == pre.scheduled@
    &&& post.processed@ == pre.processed@
    &&& post.schedules@ == pre.schedules@
    &&& post.history@ == pre.history@
    &&& post.instances@.len() == pre.instances@.len()
    &&& forall|i: int|
        0 <= i < pre.instances@.len() ==> {
            let o = #[trigger] pre.instances@[i];
            if instance_expired(o, now, ttl) {
                post.instances@[i].id@ == o.id@ && post.instances@[i].status is Dead
                    && post.instances@[i].last_at == o.last_at
            } else {
                post.instances@[i] == o
            }
        }
    &&& post.enqueued@.len() == pre.enqueued@.len()
    &&& forall|i: int|
        0 <= i < pre.enqueued@.len() ==> {
            let o = #[trigger] pre.enqueued@[i];
            if lease_expired(pre, o, now, ttl) {
                post.enqueued@[i] == (EnqueuedRow {
                    id: o.id,
                    retry: (o.retry + 1) as i32,
                    instance_id: None,
                    lock_at: None,
                })
            } else {
                post.enqueued@[i] == o
            }
        }
    &&& r == count_expired(pre.instances@, now, ttl, pre.instances@.len() as nat)
}

/// What one promotion pass does: the `(retry, id)`-least due scheduled rows,
/// up to the batch bound, move to `enqueued` free of any lease, each
/// journaled as `enqueued`; `r` counts them.
pub open spec fn promote_rel(
    pre: QueueState,
    post: QueueState,
    inst: Seq<char>,
    now: i64,
    r: u64,
) -> bool {
    let moved = promote_due(pre.scheduled@, now, ENQUEUE_BATCH as nat).1;
    &&& post.next_job_id == pre.next_job_id
    &&& post.jobs@ == pre.jobs@
    &&& post.processed@ == pre.processed@
    &&& post.schedules@ == pre.schedules@
    &&& post.instances@ == pre.instances@
    &&& post.scheduled@ == promote_due(pre.scheduled@, now, ENQUEUE_BATCH as nat).0
    &&& r == moved.len()
    &&& post.enqueued@.len() == pre.enqueued@.len() + moved.len()
    &&& post.enqueued@.subrange(0, pre.enqueued@.len() as int) == pre.enqueued@
    &&& forall|k: int|
        0 <= k < moved.len() ==> (#[trigger] post.enqueued@[pre.enqueued@.len() + k])
            == (EnqueuedRow {
            id: moved[k].id,
            retry: moved[k].retry,
            instance_id: None,
            lock_at: None,
        })
    &&& post.history@.len() == pre.history@.len() + moved.len()
    &&& post.history@.subrange(0, pre.history@.len() as int) == pre.history@
    &&& forall|k: int|
        0 <= k < moved.len() ==> {
            let h = #[trigger] post.history@[pre.history@.len() + k];
            &&& h.id == moved[k].id
            &&& h.retry == moved[k].retry
            &&& opt_view(h.instance_id) == Some(inst)
            &&& h.at == now
            &&& h.status == HistoryStatus::Enqueued
            &&& h.message is None
        }
}


/// What `unlock` does: the enqueued row loses its lease and moves one retry
/// level up, journaled as `retried` under the calling instance.
pub open spec fn unlock_rel(
    pre: QueueState,
    post: QueueState,
    job_id: i64,
    inst: Seq<char>,
    now: i64,
) -> bool {
    &&& post.next_job_id == pre.next_job_id
    &&& post.jobs@ == pre.jobs@
    &&& post.scheduled@ == pre.scheduled@
    &&& post.processed@ == pre.processed@
    &&& post.schedules@ == pre.schedules@
    &&& post.instances@ == pre.instances@
    &&& (!pre.has_enqueued(job_id) ==> post.enqueued@ == pre.enqueued@ && post.history@
        == pre.history@)
    &&& (pre.has_enqueued(job_id) ==> {
        let row = pre.enq_at(job_id);
        &&& post.enqueued@ == pre.enqueued@.update(
            pre.enq_idx(job_id),
            (EnqueuedRow {
                id: job_id,
                retry: (row.retry + 1) as i32,
                instance_id: None,
                lock_at: None,
            }),
        )
        &&& history_appended(
            pre.history@,
            post.history@,
            job_id,
            (row.retry + 1) as i32,
            Some(inst),
            now,
            HistoryStatus::Retried,
        )
    })
}

/// What `retry` does: the enqueued row moves back to `scheduled` for `at`,
/// one retry level up, journaled as `retried`.
pub open spec fn retry_rel(
    pre: QueueState,
    post: QueueState,
    job_id: i64,
    at: i64,
    now: i64,
) -> bool {
    &&& post.next_job_id == pre.next_job_id
    &&& post.jobs@ == pre.jobs@
    &&& post.processed@ == pre.processed@
    &&& post.schedules@ == pre.schedules@
    &&& post.instances@ == pre.instances@
    &&& (!pre.has_enqueued(job_id) ==> post.enqueued@ == pre.enqueued@ && post.scheduled@
        == pre.scheduled@ && post.history@ == pre.history@)
    &&& (pre.has_enqueued(job_id) ==> {
        let row = pre.enq_at(job_id);
        &&& post.enqueued@ == pre.enqueued@.remove(pre.enq_idx(job_id))
        &&& post.scheduled@ == pre.scheduled@.push(
            (ScheduledRow { id: job_id, at, retry: (row.retry + 1) as i32 }),
        )
        &&& history_appended(
            pre.history@,
            post.history@,
            job_id,
            (row.retry + 1) as i32,
            opt_view(row.instance_id),
            now,
            HistoryStatus::Retried,
        )
    })
}

/// What `processed` does: the enqueued row becomes the terminal record, with
/// the status derived from the result, journaled under the same status.
pub open spec fn processed_rel(
    pre: QueueState,
    post: QueueState,
    job_id: i64,
    job_result: JobResult,
    now: i64,
) -> bool {
    &&& post.next_job_id == pre.next_job_id
    &&& post.jobs@ == pre.jobs@
    &&& post.scheduled@ == pre.scheduled@
    &&& post.schedules@ == pre.schedules@
    &&& post.instances@ == pre.instances@
    &&& (!pre.has_enqueued(job_id) ==> post.enqueued@ == pre.enqueued@ && post.processed@
        == pre.processed@ && post.history@ == pre.history@)
    &&& (pre.has_enqueued(job_id) ==> {
        let row = pre.enq_at(job_id);
        let status = job_result.spec_status();
        &&& post.enqueued@ == pre.enqueued@.remove(pre.enq_idx(job_id))
        &&& post.processed@ == pre.processed@.push(
            (ProcessedRow {
                id: job_id,
                retry: row.retry,
                instance_id: row.instance_id,
                at: now,
                status,
                meta: job_result.meta,
                headers: job_result.headers,
                body: if job_result.body@.len() == 0 {
                    None
                } else {
                    Some(job_result.body)
                },
            }),
        )
        &&& history_appended(
            pre.history@,
            post.history@,
            job_id,
            row.retry,
            opt_view(row.instance_id),
            now,
            history_of_status(status),
        )
    })
}

/// What `clone_schedule_at` does: the source template is copied into a fresh
/// id without its external id, the schedule's `next_id`/`next_at` point at
/// the copy, and the copy waits in `scheduled` for `at`.
pub open spec fn clone_rel(
    pre: QueueState,
    post: QueueState,
    job_id: i64,
    at: i64,
    inst: Seq<char>,
    now: i64,
    r: Result<i64, Error>,
) -> bool {
    &&& (!pre.has_job(job_id) ==> r is Err && post == pre && (r matches Err(e) ==> e is DbError))
    &&& (pre.has_job(job_id) ==> {
        let src = pre.job_at(job_id);
        let nid = pre.next_job_id;
        let sidv = src.schedule_id->0@;
        &&& r matches Ok(v) && v == nid
        &&& post.next_job_id == nid + 1
        &&& post.jobs@.len() == pre.jobs@.len() + 1
        &&& post.jobs@.subrange(0, pre.jobs@.len() as int) == pre.jobs@
        &&& post.jobs@.last().id == nid
        &&& post.jobs@.last().meta == src.meta
        &&& opt_headers_view(post.jobs@.last().headers) == opt_headers_view(src.headers)
        &&& opt_bytes_view(post.jobs@.last().body) == opt_bytes_view(src.body)
        &&& opt_view(post.jobs@.last().schedule_id) == opt_view(src.schedule_id)
        &&& post.jobs@.last().external_id is None
        &&& post.scheduled@ == pre.scheduled@.push((ScheduledRow { id: nid, at, retry: 0 }))
        &&& post.enqueued@ == pre.enqueued@
        &&& post.processed@ == pre.processed@
        &&& post.instances@ == pre.instances@
        &&& history_appended(
            pre.history@,
            post.history@,
            nid,
            0,
            Some(inst),
            now,
            HistoryStatus::Scheduled,
        )
        &&& post.schedules@.len() == pre.schedules@.len()
        &&& (src.schedule_id is Some && pre.has_schedule_row(sidv) ==> post.schedules@
            == pre.schedules@.update(
            pre.schedule_row_idx(sidv),
            (ScheduleRow {
                schedule_id: pre.schedule_row_at(sidv).schedule_id,
                schedule: pre.schedule_row_at(sidv).schedule,
                until: pre.schedule_row_at(sidv).until,
                last_id: pre.schedule_row_at(sidv).last_id,
                last_at: pre.schedule_row_at(sidv).last_at,
                next_id: Some(nid),
                next_at: Some(at),
                inactive: pre.schedule_row_at(sidv).inactive,
            }),
        ))
        &&& (!(src.schedule_id is Some && pre.has_schedule_row(sidv)) ==> post.schedules@
            == pre.schedules@)
    })
}

/// One history row was appended with these fields and no message.
pub open spec fn history_appended(
    pre: Seq<JobHistoryRow>,
    post: Seq<JobHistoryRow>,
    id: i64,
    retry: i32,
    inst: Option<Seq<char>>,
    at: i64,
    status: HistoryStatus,
) -> bool {
    &&& post.len() == pre.len() + 1
    &&& post.subrange(0, pre.len() as int) == pre
    &&& post.last().id == id
    &&& post.last().retry == retry
    &&& opt_view(post.last().instance_id) == inst
    &&& post.last().at == at
    &&& post.last().status == status
    &&& post.last().message is None
}

impl QueueState {
    /// Heartbeat: upserts the instance row, refreshing `last_at`; the status
    /// of a row that already exists is left as it is.
    pub fn instance_live(&mut self, instance_id: &str, now: i64)
        requires
            old(self).wf(),
        ensures
            final(self).wf(),
            live_rel(*old(self), *final(self), instance_id@, now),
    {
        match self.find_instance(instance_id) {
            Some(i) => {
                let id = self.instances[i].id.clone();
                let status = self.instances[i].status;
                self.instances.set(i, InstanceRow { id, status, last_at: now });
                proof {
                    self.lemma_located_same_ids(old(self));
                    assert forall|a: int, b: int|
                        0 <= a < b < self.instances@.len() implies self.instances@[a].id@
                        != self.instances@[b].id@ by {
                        assert(old(self).instances@[a].id@ != old(self).instances@[b].id@);
                    }
                }
            },
            None => {
                self.instances.push(
                    InstanceRow { id: instance_id.to_owned(), status: InstanceStatus::Live, last_at: now },
                );
                proof {
                    self.lemma_located_same_ids(old(self));
                    assert(self.instances@.subrange(0, old(self).instances@.len() as int) =~= old(
                        self,
                    ).instances@);
                    assert forall|a: int, b: int|
                        0 <= a < b < self.instances@.len() implies self.instances@[a].id@
                        != self.instances@[b].id@ by {
                        if b < old(self).instances@.len() {
                            assert(old(self).instances@[a].id@ != old(self).instances@[b].id@);
                        } else {
                            assert(!old(self).has_instance(instance_id@));
                        }
                    }
                }
            },
        }
    }

    /// Marks the named instance dead. Returns the number of rows changed.
    pub fn kill(&mut self, instance_id: &str) -> (r: u64)
        requires
            old(self).wf(),
        ensures
            final(self).wf(),
            final(self).next_job_id == old(self).next_job_id,
            final(self).jobs@ == old(self).jobs@,
            final(self).scheduled@ == old(self).scheduled@,
            final(self).enqueued@ == old(self).enqueued@,
            final(self).processed@ == old(self).processed@,
            final(self).schedules@ == old(self).schedules@,
            final(self).history@ == old(self).history@,
            !old(self).has_instance(instance_id@) ==> r == 0 && final(self).instances@ == old(
                self,
            ).instances@,
            old(self).has_instance(instance_id@) ==> r == 1 && final(self).instances@ == old(
                self,
            ).instances@.update(
                old(self).instance_idx(instance_id@),
                (InstanceRow {
                    id: old(self).instances@[old(self).instance_idx(instance_id@)].id,
                    status: InstanceStatus::Dead,
                    last_at: old(self).instances@[old(self).instance_idx(instance_id@)].last_at,
                }),
            ),
    {
        match self.find_instance(instance_id) {
            Some(i) => {
                let id = self.instances[i].id.clone();
                let last_at = self.instances[i].last_at;
                self.instances.set(i, InstanceRow { id, status: InstanceStatus::Dead, last_at });
                proof {
                    self.lemma_located_same_ids(old(self));
                    assert forall|a: int, b: int|
                        0 <= a < b < self.instances@.len() implies self.instances@[a].id@
                        != self.instances@[b].id@ by {
                        assert(old(self).instances@[a].id@ != old(self).instances@[b].id@);
                    }
                }
                1
            },
            None => 0,
        }
    }

    /// Clears the lease on an enqueued row and bumps its retry level, so the
    /// job is dispatched again at once. Emits `retried` history.
    pub fn unlock(&mut self, job_id: i64, instance_id: &str, now: i64) -> (r: u64)
        requires
            old(self).wf(),
            old(self).has_enqueued(job_id) ==> old(self).enq_at(job_id).retry < i32::MAX,
        ensures
            final(self).wf(),
            unlock_rel(*old(self), *final(self), job_id, instance_id@, now),
            r == (if old(self).has_enqueued(job_id) {
                1u64
            } else {
                0u64
            }),
    {
        let i = match self.find_enqueued(job_id) {
            Some(i) => i,
            None => {
                return 0;
            },
        };
        let retry = self.enqueued[i].retry + 1;
        self.enqueued.set(i, EnqueuedRow { id: job_id, retry, instance_id: None, lock_at: None });
        self.history.push(
            JobHistoryRow {
                id: job_id,
                retry,
                instance_id: Some(instance_id.to_owned()),
                at: now,
                status: HistoryStatus::Retried,
                message: None,
            },
        );
        proof {
            assert(self.history@.subrange(0, old(self).history@.len() as int) =~= old(
                self,
            ).history@);
            assert forall|a: int| 0 <= a < self.enqueued@.len() implies (
            #[trigger] self.enqueued@[a]).id == old(self).enqueued@[a].id by {}
            self.lemma_located_same_ids(old(self));
            assert forall|a: int|
                0 <= a < self.history@.len() && is_terminal(
                    (#[trigger] self.history@[a]).status,
                ) implies self.has_processed(self.history@[a].id) by {
                assert(self.history@[a] == old(self).history@[a]);
                assert(old(self).has_processed(self.history@[a].id));
            }
        }
        1
    }

    /// Moves an enqueued row back to `scheduled` for time `at`, one retry
    /// level up. Emits `retried` history.
    pub fn retry(&mut self, job_id: i64, at: i64, now: i64) -> (r: u64)
        requires
            old(self).wf(),
            old(self).has_enqueued(job_id) ==> old(self).enq_at(job_id).retry < i32::MAX,
        ensures
            final(self).wf(),
            retry_rel(*old(self), *final(self), job_id, at, now),
            r == (if old(self).has_enqueued(job_id) {
                1u64
            } else {
                0u64
            }),
    {
        let i = match self.find_enqueued(job_id) {
            Some(i) => i,
            None => {
                return 0;
            },
        };
        let row = self.enqueued.remove(i);
        let retry = row.retry + 1;
        self.scheduled.push(ScheduledRow { id: job_id, at, retry });
        self.history.push(
            JobHistoryRow {
                id: job_id,
                retry,
                instance_id: row.instance_id,
                at: now,
                status: HistoryStatus::Retried,
                message: None,
            },
        );
        proof {
            assert(self.scheduled@.subrange(0, old(self).scheduled@.len() as int) =~= old(
                self,
            ).scheduled@);
            assert(self.history@.subrange(0, old(self).history@.len() as int) =~= old(
                self,
            ).history@);
            self.lemma_after_take_out(*old(self), job_id, i as int);
        }
        1
    }

    /// Removes an enqueued row and appends the terminal record. The status is
    /// derived from the result kind; history gets the same terminal status.
    pub fn processed(&mut self, job_id: i64, job_result: JobResult, now: i64) -> (r: u64)
        requires
            old(self).wf(),
        ensures
            final(self).wf(),
            processed_rel(*old(self), *final(self), job_id, job_result, now),
            r == (if old(self).has_enqueued(job_id) {
                1u64
            } else {
                0u64
            }),
    {
        let i = match self.find_enqueued(job_id) {
            Some(i) => i,
            None => {
                return 0;
            },
        };
        let row = self.enqueued.remove(i);
        let inst_copy = clone_opt_string(&row.instance_id);
        let status = job_result.status();
        let body = if job_result.body.is_empty() {
            None
        } else {
            Some(job_result.body)
        };
        self.processed.push(
            ProcessedRow {
                id: job_id,
                retry: row.retry,
                instance_id: row.instance_id,
                at: now,
                status,
                meta: job_result.meta,
                headers: job_result.headers,
                body,
            },
        );
        let hist_status = match status {
            ProcessedStatus::Completed => HistoryStatus::Completed,
            ProcessedStatus::Failed => HistoryStatus::Failed,
            ProcessedStatus::Cancelled => HistoryStatus::Cancelled,
        };
        self.history.push(
            JobHistoryRow {
                id: job_id,
                retry: row.retry,
                instance_id: inst_copy,
                at: now,
                status: hist_status,
                message: None,
            },
        );
        proof {
            assert(self.processed@.subrange(0, old(self).processed@.len() as int) =~= old(
                self,
            ).processed@);
            assert(self.history@.subrange(0, old(self).history@.len() as int) =~= old(
                self,
            ).history@);
            self.lemma_after_finish(*old(self), job_id, i as int);
        }
        1
    }

    /// After moving the enqueued row at `i` (holding `job_id`) back to the end
    /// of `scheduled` and journaling it, the store is well-formed again.
    proof fn lemma_after_take_out(&self, pre: QueueState, job_id: i64, i: int)
        requires
            pre.wf(),
            0 <= i < pre.enqueued@.len(),
            pre.enqueued@[i].id == job_id,
            pre.enqueued@[i].retry < i32::MAX,
            self.next_job_id == pre.next_job_id,
            self.jobs@ == pre.jobs@,
            self.processed@ == pre.processed@,
            self.schedules@ == pre.schedules@,
            self.instances@ == pre.instances@,
            self.enqueued@ == pre.enqueued@.remove(i),
            self.scheduled@.len() == pre.scheduled@.len() + 1,
            self.scheduled@.subrange(0, pre.scheduled@.len() as int) == pre.scheduled@,
            self.scheduled@.last().id == job_id,
            self.scheduled@.last().retry == pre.enqueued@[i].retry + 1,
            self.history@.len() == pre.history@.len() + 1,
            self.history@.subrange(0, pre.history@.len() as int) == pre.history@,
            !is_terminal(self.history@.last().status),
        ensures
            self.wf(),
    {
        assert forall|a: int, b: int|
            0 <= a < b < self.scheduled@.len() implies self.scheduled@[a].id
            != self.scheduled@[b].id by {
            if b < pre.scheduled@.len() {
                assert(self.scheduled@[a] == pre.scheduled@[a]);
                assert(self.scheduled@[b] == pre.scheduled@[b]);
            } else {
                assert(self.scheduled@[a] == pre.scheduled@[a]);
                assert(pre.scheduled@[a].id != pre.enqueued@[i].id);
            }
        }
        assert forall|a: int| 0 <= a < self.scheduled@.len() implies self.has_job(
            (#[trigger] self.scheduled@[a]).id,
        ) by {
            if a < pre.scheduled@.len() {
                assert(self.scheduled@[a] == pre.scheduled@[a]);
                assert(pre.has_job(pre.scheduled@[a].id));
            } else {
                assert(pre.has_job(pre.enqueued@[i].id));
            }
            assert(pre.jobs@ == self.jobs@);
        }
        assert forall|a: int| 0 <= a < self.enqueued@.len() implies self.has_job(
            (#[trigger] self.enqueued@[a]).id,
        ) by {
            assert(pre.has_job(pre.enqueued@[if a < i {
                a
            } else {
                a + 1
            }].id));
        }
        assert forall|a: int, b: int|
            0 <= a < self.scheduled@.len() && 0 <= b < self.enqueued@.len() implies
            self.scheduled@[a].id != self.enqueued@[b].id by {
            let b0 = if b < i {
                b
            } else {
                b + 1
            };
            assert(self.enqueued@[b] == pre.enqueued@[b0]);
            if a < pre.scheduled@.len() {
                assert(self.scheduled@[a] == pre.scheduled@[a]);
            } else {
                assert(self.scheduled@[a].id == pre.enqueued@[i].id);
            }
        }
        assert forall|a: int, b: int|
            0 <= a < self.scheduled@.len() && 0 <= b < self.processed@.len() implies
            self.scheduled@[a].id != self.processed@[b].id by {
            if a < pre.scheduled@.len() {
                assert(self.scheduled@[a] == pre.scheduled@[a]);
            } else {
                assert(self.scheduled@[a].id == pre.enqueued@[i].id);
            }
        }
        assert forall|a: int, b: int|
            0 <= a < self.enqueued@.len() && 0 <= b < self.processed@.len() implies
            self.enqueued@[a].id != self.processed@[b].id by {
            assert(self.enqueued@[a] == pre.enqueued@[if a < i {
                a
            } else {
                a + 1
            }]);
        }
        assert forall|a: int, b: int|
            0 <= a < b < self.enqueued@.len() implies self.enqueued@[a].id
            != self.enqueued@[b].id by {
            assert(self.enqueued@[a] == pre.enqueued@[if a < i {
                a
            } else {
                a + 1
            }]);
            assert(self.enqueued@[b] == pre.enqueued@[if b < i {
                b
            } else {
                b + 1
            }]);
        }
        assert forall|a: int| 0 <= a < self.enqueued@.len() implies ((
        #[trigger] self.enqueued@[a]).lock_at is Some ==> self.enqueued@[a].instance_id is Some)
            && self.enqueued@[a].retry >= 0 by {
            assert(self.enqueued@[a] == pre.enqueued@[if a < i {
                a
            } else {
                a + 1
            }]);
        }
        assert forall|a: int| 0 <= a < self.scheduled@.len() implies (
        #[trigger] self.scheduled@[a]).retry >= 0 by {
            if a < pre.scheduled@.len() {
                assert(self.scheduled@[a] == pre.scheduled@[a]);
            }
        }
        assert forall|a: int|
            0 <= a < self.history@.len() && is_terminal(
                (#[trigger] self.history@[a]).status,
            ) implies self.has_processed(self.history@[a].id) by {
            assert(self.history@[a] == pre.history@[a]);
            assert(pre.has_processed(pre.history@[a].id));
        }
        assert forall|a: int| 0 <= a < self.processed@.len() implies 0 < (
        #[trigger] self.processed@[a]).id < self.next_job_id by {
            assert(self.processed@[a] == pre.processed@[a]);
        }
        assert forall|a: int| 0 <= a < self.jobs@.len() implies self.job_located(
            (#[trigger] self.jobs@[a]).id,
        ) by {
            let id = pre.jobs@[a].id;
            assert(pre.job_located(id));
            if pre.has_enqueued(id) {
                let w = choose|w: int|
                    0 <= w < pre.enqueued@.len() && (#[trigger] pre.enqueued@[w]).id == id;
                if w == i {
                    assert(self.scheduled@.last().id == id);
                    let last = self.scheduled@.len() - 1;
                    assert(self.scheduled@[last].id == id);
                } else {
                    let w2 = if w < i {
                        w
                    } else {
                        w - 1
                    };
                    assert(self.enqueued@[w2] == pre.enqueued@[w]);
                }
            } else if pre.has_scheduled(id) {
                let w = choose|w: int|
                    0 <= w < pre.scheduled@.len() && (#[trigger] pre.scheduled@[w]).id == id;
                assert(self.scheduled@[w].id == id);
            } else {
                let w = choose|w: int|
                    0 <= w < pre.processed@.len() && (#[trigger] pre.processed@[w]).id == id;
                assert(self.processed@[w].id == id);
            }
        }
    }

    /// After moving the enqueued row at `i` (holding `job_id`) to the end of
    /// `processed` and journaling a terminal status, the store is well-formed.
    proof fn lemma_after_finish(&self, pre: QueueState, job_id: i64, i: int)
        requires
            pre.wf(),
            0 <= i < pre.enqueued@.len(),
            pre.enqueued@[i].id == job_id,
            self.next_job_id == pre.next_job_id,
            self.jobs@ == pre.jobs@,
            self.scheduled@ == pre.scheduled@,
            self.schedules@ == pre.schedules@,
            self.instances@ == pre.instances@,
            self.enqueued@ == pre.enqueued@.remove(i),
            self.processed@.len() == pre.processed@.len() + 1,
            self.processed@.subrange(0, pre.processed@.len() as int) == pre.processed@,
            self.processed@.last().id == job_id,
            self.processed@.last().retry == pre.enqueued@[i].retry,
            self.history@.len() == pre.history@.len() + 1,
            self.history@.subrange(0, pre.history@.len() as int) == pre.history@,
            self.history@.last().id == job_id,
        ensures
            self.wf(),
    {
        assert forall|a: int, b: int|
            0 <= a < b < self.processed@.len() implies self.processed@[a].id
            != self.processed@[b].id by {
            if b < pre.processed@.len() {
                assert(self.processed@[a] == pre.processed@[a]);
                assert(self.processed@[b] == pre.processed@[b]);
            } else {
                assert(self.processed@[a] == pre.processed@[a]);
                assert(pre.enqueued@[i].id != pre.processed@[a].id);
            }
        }
        assert forall|a: int, b: int|
            0 <= a < b < self.enqueued@.len() implies self.enqueued@[a].id
            != self.enqueued@[b].id by {
            assert(self.enqueued@[a] == pre.enqueued@[if a < i {
                a
            } else {
                a + 1
            }]);
            assert(self.enqueued@[b] == pre.enqueued@[if b < i {
                b
            } else {
                b + 1
            }]);
        }
        assert forall|a: int| 0 <= a < self.enqueued@.len() implies self.has_job(
            (#[trigger] self.enqueued@[a]).id,
        ) && ((#[trigger] self.enqueued@[a]).lock_at is Some ==> self.enqueued@[a].instance_id
            is Some) && self.enqueued@[a].retry >= 0 by {
            assert(self.enqueued@[a] == pre.enqueued@[if a < i {
                a
            } else {
                a + 1
            }]);
            assert(pre.has_job(self.enqueued@[a].id));
        }
        assert forall|a: int, b: int|
            0 <= a < self.scheduled@.len() && 0 <= b < self.enqueued@.len() implies
            self.scheduled@[a].id != self.enqueued@[b].id by {
            assert(self.enqueued@[b] == pre.enqueued@[if b < i {
                b
            } else {
                b + 1
            }]);
        }
        assert forall|a: int, b: int|
            0 <= a < self.scheduled@.len() && 0 <= b < self.processed@.len() implies
            self.scheduled@[a].id != self.processed@[b].id by {
            if b < pre.processed@.len() {
                assert(self.processed@[b] == pre.processed@[b]);
            } else {
                assert(self.processed@[b].id == pre.enqueued@[i].id);
            }
        }
        assert forall|a: int, b: int|
            0 <= a < self.enqueued@.len() && 0 <= b < self.processed@.len() implies
            self.enqueued@[a].id != self.processed@[b].id by {
            let a0 = if a < i {
                a
            } else {
                a + 1
            };
            assert(self.enqueued@[a] == pre.enqueued@[a0]);
            if b < pre.processed@.len() {
                assert(self.processed@[b] == pre.processed@[b]);
            } else {
                assert(self.processed@[b].id == pre.enqueued@[i].id);
                assert(a0 != i);
            }
        }
        assert forall|a: int| 0 <= a < self.processed@.len() implies (
        #[trigger] self.processed@[a]).retry >= 0 && 0 < self.processed@[a].id
            < self.next_job_id by {
            if a < pre.processed@.len() {
                assert(self.processed@[a] == pre.processed@[a]);
            } else {
                assert(self.processed@[a].retry == pre.enqueued@[i].retry);
                assert(pre.has_job(pre.enqueued@[i].id));
                let w = pre.job_idx(pre.enqueued@[i].id);
                assert(0 < pre.jobs@[w].id < pre.next_job_id);
            }
        }
        assert forall|a: int|
            0 <= a < self.history@.len() && is_terminal(
                (#[trigger] self.history@[a]).status,
            ) implies self.has_processed(self.history@[a].id) by {
            if a < pre.history@.len() {
                assert(self.history@[a] == pre.history@[a]);
                assert(pre.has_processed(pre.history@[a].id));
                let w = choose|w: int|
                    0 <= w < pre.processed@.len() && (#[trigger] pre.processed@[w]).id
                        == pre.history@[a].id;
                assert(self.processed@[w] == pre.processed@[w]);
            } else {
                assert(self.processed@.last().id == job_id);
            }
        }
        assert forall|a: int| 0 <= a < self.jobs@.len() implies self.job_located(
            (#[trigger] self.jobs@[a]).id,
        ) by {
            let id = pre.jobs@[a].id;
            assert(pre.job_located(id));
            if pre.has_enqueued(id) {
                let w = choose|w: int|
                    0 <= w < pre.enqueued@.len() && (#[trigger] pre.enqueued@[w]).id == id;
                if w == i {
                    let last = self.processed@.len() - 1;
                    assert(self.processed@[last].id == id);
                } else {
                    let w2 = if w < i {
                        w
                    } else {
                        w - 1
                    };
                    assert(self.enqueued@[w2] == pre.enqueued@[w]);
                }
            } else if pre.has_scheduled(id) {
                let w = choose|w: int|
                    0 <= w < pre.scheduled@.len() && (#[trigger] pre.scheduled@[w]).id == id;
                assert(self.scheduled@[w].id == id);
            } else {
                let w = choose|w: int|
                    0 <= w < pre.processed@.len() && (#[trigger] pre.processed@[w]).id == id;
                assert(self.processed@[w] == pre.processed@[w]);
            }
        }
    }
}

/// The `jobs` table grew by exactly the new template row; the terminal
/// tables did not change.
pub open spec fn create_inserted_job(
    pre: QueueState,
    post: QueueState,
    job: JobCreate,
    sid: Option<String>,
) -> bool {
    &&& post.next_job_id == pre.next_job_id + 1
    &&& post.jobs@ == pre.jobs@.push(
        (JobRow {
            id: pre.next_job_id,
            meta: job.meta,
            headers: job.headers,
            body: if job.body@.len() == 0 {
                None
            } else {
                Some(job.body)
            },
            schedule_id: sid,
            external_id: job.external_id,
        }),
    )
    &&& post.processed@ == pre.processed@
    &&& post.instances@ == pre.instances@
}

/// What `create` does: rejects a schedule with no next fire, answers an
/// existing external id with the existing job, and otherwise inserts the
/// template together with its first `enqueued` or `scheduled` row (and, for a
/// recurring job, the `schedules` row), journaling the entry.
pub open spec fn create_rel(
    pre: QueueState,
    post: QueueState,
    job: JobCreate,
    inst: Seq<char>,
    now: i64,
    r: Result<JobCreateRow, Error>,
) -> bool {
    let after = if job.at is Some {
        job.at->0
    } else {
        now
    };
    if job.schedule is Some && (!job.schedule->0.spec_fireable() || job.schedule->0.spec_next(
        after,
        job.until,
    ) is None) {
        &&& post == pre
        &&& r matches Err(e) && e matches Error::InvalidParams(p) && p@ == "schedule"@
    } else if job.external_id is Some && pre.has_external(job.external_id->0@) {
        let ex = pre.jobs@[pre.ext_idx(job.external_id->0@)];
        &&& post == pre
        &&& r matches Ok(row) && row.id == ex.id && opt_view(row.schedule_id) == opt_view(
            ex.schedule_id,
        ) && row.external_id == job.external_id
    } else if job.schedule is Some {
        let s = job.schedule->0;
        let at = s.spec_next(after, job.until)->0;
        ||| (r matches Err(e) && e is DbError && post == pre)
        ||| (r matches Ok(row) && {
            &&& row.id == pre.next_job_id
            &&& row.external_id == job.external_id
            &&& row.schedule_id matches Some(sid) && sid@.len() == 26 && !pre.has_schedule_row(
                sid@,
            )
            &&& create_inserted_job(pre, post, job, row.schedule_id)
            &&& post.schedules@.len() == pre.schedules@.len() + 1
            &&& post.schedules@.subrange(0, pre.schedules@.len() as int) == pre.schedules@
            &&& post.schedules@.last().schedule_id == row.schedule_id->0
            &&& post.schedules@.last().schedule@ == crate::schedule::spec_print_schedule(&s)
            &&& post.schedules@.last().until == job.until
            &&& post.schedules@.last().last_id is None
            &&& post.schedules@.last().last_at is None
            &&& post.schedules@.last().next_id == Some(pre.next_job_id)
            &&& post.schedules@.last().next_at == Some(at)
            &&& post.schedules@.last().inactive == false
            &&& post.scheduled@ == pre.scheduled@.push(
                (ScheduledRow { id: pre.next_job_id, at, retry: 0 }),
            )
            &&& post.enqueued@ == pre.enqueued@
            &&& history_appended(
                pre.history@,
                post.history@,
                pre.next_job_id,
                0,
                Some(inst),
                now,
                HistoryStatus::Scheduled,
            )
        })
    } else if job.at is Some {
        r matches Ok(row) && {
            &&& row.id == pre.next_job_id
            &&& row.schedule_id is None
            &&& row.external_id == job.external_id
            &&& create_inserted_job(pre, post, job, None)
            &&& post.schedules@ == pre.schedules@
            &&& post.scheduled@ == pre.scheduled@.push(
                (ScheduledRow { id: pre.next_job_id, at: job.at->0, retry: 0 }),
            )
            &&& post.enqueued@ == pre.enqueued@
            &&& history_appended(
                pre.history@,
                post.history@,
                pre.next_job_id,
                0,
                Some(inst),
                now,
                HistoryStatus::Scheduled,
            )
        }
    } else {
        r matches Ok(row) && {
            &&& row.id == pre.next_job_id
            &&& row.schedule_id is None
            &&& row.external_id == job.external_id
            &&& create_inserted_job(pre, post, job, None)
            &&& post.schedules@ == pre.schedules@
            &&& post.scheduled@ == pre.scheduled@
            &&& post.enqueued@ == pre.enqueued@.push(
                (EnqueuedRow { id: pre.next_job_id, retry: 0, instance_id: None, lock_at: None }),
            )
            &&& history_appended(
                pre.history@,
                post.history@,
                pre.next_job_id,
                0,
                Some(inst),
                now,
                HistoryStatus::Enqueued,
            )
        }
    }
}

impl QueueState {
    /// Finds the position of a job with this external id.
    fn find_external(&self, e: &str) -> (r: Option<usize>)
        ensures
            r is Some <==> self.has_external(e@),
            r matches Some(i) ==> 0 <= i < self.jobs@.len() && (self.jobs@[
                i as int
            ].external_id matches Some(x) && x@ == e@),
            self.wf() ==> (r matches Some(i) ==> i == self.ext_idx(e@)),
    {
        let mut i: usize = 0;
        while i < self.jobs.len()
            invariant
                0 <= i <= self.jobs@.len(),
                forall|k: int|
                    0 <= k < i ==> !((#[trigger] self.jobs@[k]).external_id matches Some(x) && x@
                        == e@),
            decreases self.jobs@.len() - i,
        {
            if let Some(x) = &self.jobs[i].external_id {
                if str_eq(x.as_str(), e) {
                    proof {
                        if self.wf() {
                            let c = self.ext_idx(e@);
                            assert(0 <= c < self.jobs@.len() && (self.jobs@[c].external_id
                                matches Some(y) && y@ == e@));
                            if c != i as int {
                                let lo = if c < i as int {
                                    c
                                } else {
                                    i as int
                                };
                                let hi = if c < i as int {
                                    i as int
                                } else {
                                    c
                                };
                                assert(!(self.jobs@[lo].external_id matches Some(a)
                                    && self.jobs@[hi].external_id matches Some(b) && a@ == b@));
                            }
                        }
                    }
                    return Some(i);
                }
            }
            i = i + 1;
        }
        None
    }

    /// Creates a job: immediate, one-shot future, or recurring, with
    /// idempotency by the caller-supplied external id.
    pub fn create(&mut self, job: JobCreate, instance_id: &str, now: i64) -> (r: Result<
        JobCreateRow,
        Error,
    >)
        requires
            old(self).wf(),
            old(self).next_job_id < i64::MAX,
            0 <= now <= crate::MAX_EPOCH_SECS,
            job.schedule is Some ==> (job.at matches Some(a) ==> 0 <= a
                <= crate::MAX_EPOCH_SECS),
        ensures
            final(self).wf(),
            create_rel(*old(self), *final(self), job, instance_id@, now, r),
    {
        let ghost pre = *self;
        let mut fire_at: i64 = 0;
        if let Some(sched) = &job.schedule {
            let after = match job.at {
                Some(a) => a,
                None => now,
            };
            match sched.try_next(after, job.until) {
                Err(e) => {
                    return Err(e);
                },
                Ok(None) => {
                    return Err(Error::InvalidParams("schedule"));
                },
                Ok(Some(t)) => {
                    fire_at = t;
                },
            }
        }
        if let Some(e) = &job.external_id {
            if let Some(i) = self.find_external(e.as_str()) {
                let row = JobCreateRow {
                    id: self.jobs[i].id,
                    schedule_id: clone_opt_string(&self.jobs[i].schedule_id),
                    external_id: clone_opt_string(&job.external_id),
                };
                return Ok(row);
            }
        }
        let id = self.next_job_id;
        let body = if job.body.is_empty() {
            None
        } else {
            Some(job.body)
        };
        match job.schedule {
            Some(sched) => {
                let sid = fresh_ulid();
                if self.find_schedule_row(sid.as_str()).is_some() {
                    return Err(Error::DbError);
                }
                self.next_job_id = id + 1;
                self.jobs.push(
                    JobRow {
                        id,
                        meta: job.meta,
                        headers: job.headers,
                        body,
                        schedule_id: Some(sid.clone()),
                        external_id: clone_opt_string(&job.external_id),
                    },
                );
                self.schedules.push(
                    ScheduleRow {
                        schedule_id: sid.clone(),
                        schedule: sched.to_string(),
                        until: job.until,
                        last_id: None,
                        last_at: None,
                        next_id: Some(id),
                        next_at: Some(fire_at),
                        inactive: false,
                    },
                );
                self.scheduled.push(ScheduledRow { id, at: fire_at, retry: 0 });
                self.history.push(
                    JobHistoryRow {
                        id,
                        retry: 0,
                        instance_id: Some(instance_id.to_owned()),
                        at: now,
                        status: HistoryStatus::Scheduled,
                        message: None,
                    },
                );
                proof {
                    assert(self.jobs@.subrange(0, pre.jobs@.len() as int) =~= pre.jobs@);
                    assert(self.schedules@.subrange(0, pre.schedules@.len() as int)
                        =~= pre.schedules@);
                    assert(self.scheduled@.subrange(0, pre.scheduled@.len() as int)
                        =~= pre.scheduled@);
                    assert(self.history@.subrange(0, pre.history@.len() as int) =~= pre.history@);
                    assert(self.jobs@ =~= pre.jobs@.push(self.jobs@.last()));
                    assert(self.scheduled@ =~= pre.scheduled@.push(self.scheduled@.last()));
                    self.lemma_after_create(pre, true);
                }
                Ok(
                    JobCreateRow {
                        id,
                        schedule_id: Some(sid),
                        external_id: job.external_id,
                    },
                )
            },
            None => {
                self.next_job_id = id + 1;
                self.jobs.push(
                    JobRow {
                        id,
                        meta: job.meta,
                        headers: job.headers,
                        body,
                        schedule_id: None,
                        external_id: clone_opt_string(&job.external_id),
                    },
                );
                match job.at {
                    Some(a) => {
                        self.scheduled.push(ScheduledRow { id, at: a, retry: 0 });
                        self.history.push(
                            JobHistoryRow {
                                id,
                                retry: 0,
                                instance_id: Some(instance_id.to_owned()),
                                at: now,
                                status: HistoryStatus::Scheduled,
                                message: None,
                            },
                        );
                        proof {
                            assert(self.jobs@.subrange(0, pre.jobs@.len() as int) =~= pre.jobs@);
                            assert(self.scheduled@.subrange(0, pre.scheduled@.len() as int)
                                =~= pre.scheduled@);
                            assert(self.history@.subrange(0, pre.history@.len() as int)
                                =~= pre.history@);
                            assert(self.jobs@ =~= pre.jobs@.push(self.jobs@.last()));
                            assert(self.scheduled@ =~= pre.scheduled@.push(self.scheduled@.last()));
                            self.lemma_after_create(pre, true);
                        }
                    },
                    None => {
                        self.enqueued.push(
                            EnqueuedRow { id, retry: 0, instance_id: None, lock_at: None },
                        );
                        self.history.push(
                            JobHistoryRow {
                                id,
                                retry: 0,
                                instance_id: Some(instance_id.to_owned()),
                                at: now,
                                status: HistoryStatus::Enqueued,
                                message: None,
                            },
                        );
                        proof {
                            assert(self.jobs@.subrange(0, pre.jobs@.len() as int) =~= pre.jobs@);
                            assert(self.enqueued@.subrange(0, pre.enqueued@.len() as int)
                                =~= pre.enqueued@);
                            assert(self.history@.subrange(0, pre.history@.len() as int)
                                =~= pre.history@);
                            assert(self.jobs@ =~= pre.jobs@.push(self.jobs@.last()));
                            assert(self.enqueued@ =~= pre.enqueued@.push(self.enqueued@.last()));
                            self.lemma_after_create(pre, false);
                        }
                    },
                }
                Ok(JobCreateRow { id, schedule_id: None, external_id: job.external_id })
            },
        }
    }

    /// After inserting one fresh job template together with its first
    /// `scheduled` or `enqueued` row (and possibly a fresh `schedules` row or
    /// an update that keeps every schedule id), the store is well-formed.
    proof fn lemma_after_create(&self, pre: QueueState, to_scheduled: bool)
        requires
            pre.wf(),
            pre.next_job_id < i64::MAX,
            self.next_job_id == pre.next_job_id + 1,
            self.jobs@.len() == pre.jobs@.len() + 1,
            self.jobs@.subrange(0, pre.jobs@.len() as int) == pre.jobs@,
            self.jobs@.last().id == pre.next_job_id,
            self.jobs@.last().external_id matches Some(e) ==> !pre.has_external(e@),
            self.processed@ == pre.processed@,
            self.instances@ == pre.instances@,
            to_scheduled ==> {
                &&& self.scheduled@.len() == pre.scheduled@.len() + 1
                &&& self.scheduled@.subrange(0, pre.scheduled@.len() as int) == pre.scheduled@
                &&& self.scheduled@.last().id == pre.next_job_id
                &&& self.scheduled@.last().retry == 0
                &&& self.enqueued@ == pre.enqueued@
            },
            !to_scheduled ==> {
                &&& self.enqueued@.len() == pre.enqueued@.len() + 1
                &&& self.enqueued@.subrange(0, pre.enqueued@.len() as int) == pre.enqueued@
                &&& self.enqueued@.last().id == pre.next_job_id
                &&& self.enqueued@.last().retry == 0
                &&& self.enqueued@.last().lock_at is None
                &&& self.scheduled@ == pre.scheduled@
            },
            self.schedules@.len() == pre.schedules@.len() || self.schedules@.len()
                == pre.schedules@.len() + 1,
            forall|i: int| 0 <= i < pre.schedules@.len() ==> (#[trigger] self.schedules@[i]).schedule_id@
                == pre.schedules@[i].schedule_id@,
            self.schedules@.len() > pre.schedules@.len() ==> !pre.has_schedule_row(
                self.schedules@.last().schedule_id@,
            ),
            self.history@.len() == pre.history@.len() + 1,
            self.history@.subrange(0, pre.history@.len() as int) == pre.history@,
            !is_terminal(self.history@.last().status),
        ensures
            self.wf(),
    {
        let nid = pre.next_job_id;
        assert forall|a: int, b: int|
            0 <= a < b < self.jobs@.len() implies self.jobs@[a].id != self.jobs@[b].id by {
            if b < pre.jobs@.len() {
                assert(self.jobs@[a] == pre.jobs@[a]);
                assert(self.jobs@[b] == pre.jobs@[b]);
            } else {
                assert(self.jobs@[a] == pre.jobs@[a]);
            }
        }
        assert forall|a: int| 0 <= a < self.jobs@.len() implies 0 < (#[trigger] self.jobs@[a]).id
            < self.next_job_id by {
            if a < pre.jobs@.len() {
                assert(self.jobs@[a] == pre.jobs@[a]);
            }
        }
        assert forall|a: int| 0 <= a < self.processed@.len() implies 0 < (
        #[trigger] self.processed@[a]).id < self.next_job_id by {
            assert(self.processed@[a] == pre.processed@[a]);
        }
        assert forall|a: int, b: int|
            #![trigger self.jobs@[a], self.jobs@[b]]
            0 <= a < b < self.jobs@.len() implies !(self.jobs@[a].external_id matches Some(x)
            && self.jobs@[b].external_id matches Some(y) && x@ == y@) by {
            if b < pre.jobs@.len() {
                assert(self.jobs@[a] == pre.jobs@[a]);
                assert(self.jobs@[b] == pre.jobs@[b]);
            } else {
                assert(self.jobs@[a] == pre.jobs@[a]);
                if self.jobs@[a].external_id is Some && self.jobs@[b].external_id is Some
                    && self.jobs@[a].external_id->0@ == self.jobs@[b].external_id->0@ {
                    assert(pre.has_external(self.jobs@[b].external_id->0@));
                }
            }
        }
        assert forall|a: int, b: int|
            0 <= a < b < self.schedules@.len() implies self.schedules@[a].schedule_id@
            != self.schedules@[b].schedule_id@ by {
            if b < pre.schedules@.len() {
                assert(pre.schedules@[a].schedule_id@ != pre.schedules@[b].schedule_id@);
            } else {
                assert(!pre.has_schedule_row(self.schedules@.last().schedule_id@));
                assert(self.schedules@[a].schedule_id@ == pre.schedules@[a].schedule_id@);
            }
        }
        assert(forall|a: int|
            0 <= a < pre.scheduled@.len() ==> pre.has_job((#[trigger] pre.scheduled@[a]).id));
        assert forall|a: int| 0 <= a < self.scheduled@.len() implies self.has_job(
            (#[trigger] self.scheduled@[a]).id,
        ) by {
            if a < pre.scheduled@.len() {
                assert(self.scheduled@[a] == pre.scheduled@[a]);
                let w = pre.job_idx(pre.scheduled@[a].id);
                assert(self.jobs@[w] == pre.jobs@[w]);
            } else {
                assert(self.jobs@.last().id == nid);
            }
        }
        assert forall|a: int| 0 <= a < self.enqueued@.len() implies self.has_job(
            (#[trigger] self.enqueued@[a]).id,
        ) by {
            if a < pre.enqueued@.len() {
                assert(self.enqueued@[a] == pre.enqueued@[a]);
                let w = pre.job_idx(pre.enqueued@[a].id);
                assert(self.jobs@[w] == pre.jobs@[w]);
            } else {
                assert(self.jobs@.last().id == nid);
            }
        }
        assert forall|a: int, b: int|
            0 <= a < b < self.scheduled@.len() implies self.scheduled@[a].id
            != self.scheduled@[b].id by {
            if b < pre.scheduled@.len() {
                assert(self.scheduled@[a] == pre.scheduled@[a]);
                assert(self.scheduled@[b] == pre.scheduled@[b]);
            } else {
                assert(self.scheduled@[a] == pre.scheduled@[a]);
                assert(pre.has_job(pre.scheduled@[a].id));
                let w = pre.job_idx(pre.scheduled@[a].id);
                assert(pre.jobs@[w].id < nid);
            }
        }
        assert forall|a: int, b: int|
            0 <= a < b < self.enqueued@.len() implies self.enqueued@[a].id
            != self.enqueued@[b].id by {
            if b < pre.enqueued@.len() {
                assert(self.enqueued@[a] == pre.enqueued@[a]);
                assert(self.enqueued@[b] == pre.enqueued@[b]);
            } else {
                assert(self.enqueued@[a] == pre.enqueued@[a]);
                assert(pre.has_job(pre.enqueued@[a].id));
                let w = pre.job_idx(pre.enqueued@[a].id);
                assert(pre.jobs@[w].id < nid);
            }
        }
        assert forall|a: int, b: int|
            0 <= a < self.scheduled@.len() && 0 <= b < self.enqueued@.len() implies
            self.scheduled@[a].id != self.enqueued@[b].id by {
            if a < pre.scheduled@.len() && b < pre.enqueued@.len() {
                assert(self.scheduled@[a] == pre.scheduled@[a]);
                assert(self.enqueued@[b] == pre.enqueued@[b]);
            } else if a < pre.scheduled@.len() {
                assert(self.scheduled@[a] == pre.scheduled@[a]);
                assert(pre.has_job(pre.scheduled@[a].id));
                let w = pre.job_idx(pre.scheduled@[a].id);
                assert(pre.jobs@[w].id < nid);
            } else {
                assert(self.enqueued@[b] == pre.enqueued@[b]);
                assert(pre.has_job(pre.enqueued@[b].id));
                let w = pre.job_idx(pre.enqueued@[b].id);
                assert(pre.jobs@[w].id < nid);
            }
        }
        assert forall|a: int, b: int|
            0 <= a < self.scheduled@.len() && 0 <= b < self.processed@.len() implies
            self.scheduled@[a].id != self.processed@[b].id by {
            assert(self.processed@[b] == pre.processed@[b]);
            if a < pre.scheduled@.len() {
                assert(self.scheduled@[a] == pre.scheduled@[a]);
            } else {
                if self.scheduled@[a].id == self.processed@[b].id {
                    assert(pre.has_processed(nid));
                    let w = choose|w: int|
                        0 <= w < pre.processed@.len() && (#[trigger] pre.processed@[w]).id == nid;
                    assert(false);
                }
            }
        }
        assert forall|a: int, b: int|
            0 <= a < self.enqueued@.len() && 0 <= b < self.processed@.len() implies
            self.enqueued@[a].id != self.processed@[b].id by {
            assert(self.processed@[b] == pre.processed@[b]);
            if a < pre.enqueued@.len() {
                assert(self.enqueued@[a] == pre.enqueued@[a]);
            }
        }
        assert forall|a: int| 0 <= a < self.scheduled@.len() implies (
        #[trigger] self.scheduled@[a]).retry >= 0 by {
            if a < pre.scheduled@.len() {
                assert(self.scheduled@[a] == pre.scheduled@[a]);
            }
        }
        assert forall|a: int| 0 <= a < self.enqueued@.len() implies (
        #[trigger] self.enqueued@[a]).retry >= 0 && ((#[trigger] self.enqueued@[a]).lock_at
            is Some ==> self.enqueued@[a].instance_id is Some) by {
            if a < pre.enqueued@.len() {
                assert(self.enqueued@[a] == pre.enqueued@[a]);
            }
        }
        assert forall|a: int|
            0 <= a < self.history@.len() && is_terminal(
                (#[trigger] self.history@[a]).status,
            ) implies self.has_processed(self.history@[a].id) by {
            assert(self.history@[a] == pre.history@[a]);
            assert(pre.has_processed(pre.history@[a].id));
        }
        assert forall|a: int| 0 <= a < self.jobs@.len() implies self.job_located(
            (#[trigger] self.jobs@[a]).id,
        ) by {
            if a < pre.jobs@.len() {
                let id = pre.jobs@[a].id;
                assert(self.jobs@[a] == pre.jobs@[a]);
                assert(pre.job_located(id));
                if pre.has_scheduled(id) {
                    let w = choose|w: int|
                        0 <= w < pre.scheduled@.len() && (#[trigger] pre.scheduled@[w]).id == id;
                    assert(self.scheduled@[w].id == id);
                } else if pre.has_enqueued(id) {
                    let w = choose|w: int|
                        0 <= w < pre.enqueued@.len() && (#[trigger] pre.enqueued@[w]).id == id;
                    assert(self.enqueued@[w].id == id);
                } else {
                    let w = choose|w: int|
                        0 <= w < pre.processed@.len() && (#[trigger] pre.processed@[w]).id == id;
                    assert(self.processed@[w].id == id);
                }
            } else {
                if to_scheduled {
                    let last = self.scheduled@.len() - 1;
                    assert(self.scheduled@[last].id == nid);
                } else {
                    let last = self.enqueued@.len() - 1;
                    assert(self.enqueued@[last].id == nid);
                }
            }
        }
    }

    /// Advances a recurring schedule: clones the source job into a fresh id,
    /// points `schedules.next_id`/`next_at` at it, and schedules it for `at`.
    pub fn clone_schedule_at(&mut self, job_id: i64, at: i64, instance_id: &str, now: i64) -> (r:
        Result<i64, Error>)
        requires
            old(self).wf(),
            old(self).next_job_id < i64::MAX,
        ensures
            final(self).wf(),
            clone_rel(*old(self), *final(self), job_id, at, instance_id@, now, r),
    {
        let ghost pre = *self;
        let i = match self.find_job(job_id) {
            Some(i) => i,
            None => {
                return Err(Error::DbError);
            },
        };
        let nid = self.next_job_id;
        let meta = clone_meta(&self.jobs[i].meta);
        let headers = clone_opt_headers(&self.jobs[i].headers);
        let body = clone_opt_bytes(&self.jobs[i].body);
        let schedule_id = clone_opt_string(&self.jobs[i].schedule_id);
        self.next_job_id = nid + 1;
        self.jobs.push(
            JobRow {
                id: nid,
                meta,
                headers,
                body,
                schedule_id: clone_opt_string(&schedule_id),
                external_id: None,
            },
        );
        if let Some(sid) = &schedule_id {
            if let Some(k) = self.find_schedule_row(sid.as_str()) {
                let row = &self.schedules[k];
                let updated = ScheduleRow {
                    schedule_id: row.schedule_id.clone(),
                    schedule: row.schedule.clone(),
                    until: row.until,
                    last_id: row.last_id,
                    last_at: row.last_at,
                    next_id: Some(nid),
                    next_at: Some(at),
                    inactive: row.inactive,
                };
                self.schedules.set(k, updated);
            }
        }
        self.scheduled.push(ScheduledRow { id: nid, at, retry: 0 });
        self.history.push(
            JobHistoryRow {
                id: nid,
                retry: 0,
                instance_id: Some(instance_id.to_owned()),
                at: now,
                status: HistoryStatus::Scheduled,
                message: None,
            },
        );
        proof {
            assert(self.jobs@.subrange(0, pre.jobs@.len() as int) =~= pre.jobs@);
            assert(self.scheduled@.subrange(0, pre.scheduled@.len() as int) =~= pre.scheduled@);
            assert(self.history@.subrange(0, pre.history@.len() as int) =~= pre.history@);
            assert(self.jobs@ =~= pre.jobs@.push(self.jobs@.last()));
            assert(self.scheduled@ =~= pre.scheduled@.push(self.scheduled@.last()));
            self.lemma_after_create(pre, true);
        }
        Ok(nid)
    }
}

/// How many rows one promotion pass moves at most.
pub const ENQUEUE_BATCH: usize = 1000;

/// Index of the `(retry, id)`-least due row among the first `n` of
/// `scheduled`, or `-1` when none of them is due.
pub open spec fn due_min_upto(s: Seq<ScheduledRow>, now: i64, n: nat) -> int
    decreases n,
{
    if n == 0 {
        -1
    } else {
        let prev = due_min_upto(s, now, (n - 1) as nat);
        let cur = n - 1;
        if s[cur as int].at <= now && (prev == -1 || lex_before(
            s[cur as int].retry,
            s[cur as int].id,
            s[prev].retry,
            s[prev].id,
        )) {
            cur as int
        } else {
            prev
        }
    }
}

/// Index of the `(retry, id)`-least free row among the first `n` of
/// `enqueued`, or `-1` when none of them is free.
pub open spec fn free_min_upto(s: Seq<EnqueuedRow>, n: nat) -> int
    decreases n,
{
    if n == 0 {
        -1
    } else {
        let prev = free_min_upto(s, (n - 1) as nat);
        let cur = n - 1;
        if s[cur as int].lock_at is None && (prev == -1 || lex_before(
            s[cur as int].retry,
            s[cur as int].id,
            s[prev].retry,
            s[prev].id,
        )) {
            cur as int
        } else {
            prev
        }
    }
}

/// The result of repeatedly extracting the `(retry, id)`-least due row, up to
/// `fuel` times: the remaining rows in their original order, and the moved
/// rows in extraction order.
pub open spec fn promote_due(s: Seq<ScheduledRow>, now: i64, fuel: nat) -> (
    Seq<ScheduledRow>,
    Seq<ScheduledRow>,
)
    decreases fuel,
{
    if fuel == 0 {
        (s, Seq::empty())
    } else {
        let m = due_min_upto(s, now, s.len());
        if m == -1 {
            (s, Seq::empty())
        } else {
            let rest = promote_due(s.remove(m), now, (fuel - 1) as nat);
            (rest.0, seq![s[m]] + rest.1)
        }
    }
}

proof fn lemma_due_min_in_range(s: Seq<ScheduledRow>, now: i64, n: nat)
    requires
        n <= s.len(),
    ensures
        due_min_upto(s, now, n) == -1 || (0 <= due_min_upto(s, now, n) < n && s[due_min_upto(
            s,
            now,
            n,
        )].at <= now),
    decreases n,
{
    if n > 0 {
        lemma_due_min_in_range(s, now, (n - 1) as nat);
    }
}

proof fn lemma_free_min_in_range(s: Seq<EnqueuedRow>, n: nat)
    requires
        n <= s.len(),
    ensures
        free_min_upto(s, n) == -1 || (0 <= free_min_upto(s, n) < n && s[free_min_upto(
            s,
            n,
        )].lock_at is None),
    decreases n,
{
    if n > 0 {
        lemma_free_min_in_range(s, (n - 1) as nat);
    }
}

impl QueueState {
    /// Scans for the `(retry, id)`-least due scheduled row.
    fn find_due_min(&self, now: i64) -> (r: Option<usize>)
        ensures
            ({
                let m = due_min_upto(self.scheduled@, now, self.scheduled@.len());
                &&& (r is None <==> m == -1)
                &&& (r matches Some(i) ==> i as int == m)
            }),
    {
        let mut best: Option<usize> = None;
        let mut i: usize = 0;
        while i < self.scheduled.len()
            invariant
                0 <= i <= self.scheduled@.len(),
                ({
                    let m = due_min_upto(self.scheduled@, now, i as nat);
                    &&& (best is None <==> m == -1)
                    &&& (best matches Some(b) ==> b as int == m && 0 <= m < i)
                }),
            decreases self.scheduled@.len() - i,
        {
            proof {
                lemma_due_min_in_range(self.scheduled@, now, i as nat);
            }
            let due = self.scheduled[i].at <= now;
            let better = match best {
                None => due,
                Some(b) => due && {
                    let cand = &self.scheduled[i];
                    let cur = &self.scheduled[b];
                    cand.retry < cur.retry || (cand.retry == cur.retry && cand.id < cur.id)
                },
            };
            if better {
                best = Some(i);
            }
            i = i + 1;
        }
        best
    }

    /// Scans for the `(retry, id)`-least free enqueued row.
    fn find_free_min(&self) -> (r: Option<usize>)
        ensures
            ({
                let m = free_min_upto(self.enqueued@, self.enqueued@.len());
                &&& (r is None <==> m == -1)
                &&& (r matches Some(i) ==> i as int == m)
            }),
    {
        let mut best: Option<usize> = None;
        let mut i: usize = 0;
        while i < self.enqueued.len()
            invariant
                0 <= i <= self.enqueued@.len(),
                ({
                    let m = free_min_upto(self.enqueued@, i as nat);
                    &&& (best is None <==> m == -1)
                    &&& (best matches Some(b) ==> b as int == m && 0 <= m < i)
                }),
            decreases self.enqueued@.len() - i,
        {
            proof {
                lemma_free_min_in_range(self.enqueued@, i as nat);
            }
            let free = self.enqueued[i].lock_at.is_none();
            let better = match best {
                None => free,
                Some(b) => free && {
                    let cand = &self.enqueued[i];
                    let cur = &self.enqueued[b];
                    cand.retry < cur.retry || (cand.retry == cur.retry && cand.id < cur.id)
                },
            };
            if better {
                best = Some(i);
            }
            i = i + 1;
        }
        best
    }

    /// Promotes due scheduled rows into `enqueued`, `(retry, id)`-least
    /// first, up to the batch bound, journaling each as `enqueued`. Returns
    /// the number of rows moved.
    pub fn enqueue_scheduled(&mut self, instance_id: &str, now: i64) -> (r: u64)
        requires
            old(self).wf(),
        ensures
            final(self).wf(),
            promote_rel(*old(self), *final(self), instance_id@, now, r),
    {
        let ghost pre = *self;
        let mut count: usize = 0;
        let ghost mut moved: Seq<ScheduledRow> = Seq::empty();
        proof {
            assert(self.enqueued@ =~= pre.enqueued@ + moved.map_values(
                |m: ScheduledRow| EnqueuedRow {
                    id: m.id,
                    retry: m.retry,
                    instance_id: None,
                    lock_at: None,
                },
            ));
        }
        let mut done = false;
        while count < ENQUEUE_BATCH && !done
            invariant
                0 <= count <= ENQUEUE_BATCH,
                done ==> due_min_upto(self.scheduled@, now, self.scheduled@.len()) == -1,
                self.wf(),
                pre.wf(),
                moved.len() == count,
                self.next_job_id == pre.next_job_id,
                self.jobs@ == pre.jobs@,
                self.processed@ == pre.processed@,
                self.schedules@ == pre.schedules@,
                self.instances@ == pre.instances@,
                promote_due(pre.scheduled@, now, ENQUEUE_BATCH as nat).0 == promote_due(
                    self.scheduled@,
                    now,
                    (ENQUEUE_BATCH - count) as nat,
                ).0,
                promote_due(pre.scheduled@, now, ENQUEUE_BATCH as nat).1 =~= moved + promote_due(
                    self.scheduled@,
                    now,
                    (ENQUEUE_BATCH - count) as nat,
                ).1,
                self.enqueued@ == pre.enqueued@ + moved.map_values(
                    |m: ScheduledRow| EnqueuedRow {
                        id: m.id,
                        retry: m.retry,
                        instance_id: None,
                        lock_at: None,
                    },
                ),
                self.history@.len() == pre.history@.len() + count,
                self.history@.subrange(0, pre.history@.len() as int) == pre.history@,
                forall|k: int|
                    0 <= k < count ==> {
                        let h = #[trigger] self.history@[pre.history@.len() + k];
                        &&& h.id == moved[k].id
                        &&& h.retry == moved[k].retry
                        &&& opt_view(h.instance_id) == Some(instance_id@)
                        &&& h.at == now
                        &&& h.status == HistoryStatus::Enqueued
                        &&& h.message is None
                    },
            decreases ENQUEUE_BATCH - count + (if done {
                0int
            } else {
                1int
            }),
        {
            let m = match self.find_due_min(now) {
                Some(m) => m,
                None => {
                    done = true;
                    continue ;
                },
            };
            proof {
                lemma_due_min_in_range(self.scheduled@, now, self.scheduled@.len());
            }
            let ghost step_pre = *self;
            let row = self.scheduled.remove(m);
            self.enqueued.push(
                EnqueuedRow { id: row.id, retry: row.retry, instance_id: None, lock_at: None },
            );
            self.history.push(
                JobHistoryRow {
                    id: row.id,
                    retry: row.retry,
                    instance_id: Some(instance_id.to_owned()),
                    at: now,
                    status: HistoryStatus::Enqueued,
                    message: None,
                },
            );
            proof {
                assert(self.enqueued@.subrange(0, step_pre.enqueued@.len() as int)
                    =~= step_pre.enqueued@);
                assert(self.history@.subrange(0, step_pre.history@.len() as int)
                    =~= step_pre.history@);
                step_pre.lemma_after_promote_one(self, m as int);
                let fuel = (ENQUEUE_BATCH - count) as nat;
                assert(promote_due(step_pre.scheduled@, now, fuel).0 == promote_due(
                    self.scheduled@,
                    now,
                    (fuel - 1) as nat,
                ).0);
                assert(promote_due(step_pre.scheduled@, now, fuel).1 == seq![
                    step_pre.scheduled@[m as int],
                ] + promote_due(self.scheduled@, now, (fuel - 1) as nat).1);
                moved = moved.push(step_pre.scheduled@[m as int]);
                assert(promote_due(pre.scheduled@, now, ENQUEUE_BATCH as nat).1 =~= moved
                    + promote_due(self.scheduled@, now, (fuel - 1) as nat).1);
                assert(self.enqueued@ =~= pre.enqueued@ + moved.map_values(
                    |mm: ScheduledRow| EnqueuedRow {
                        id: mm.id,
                        retry: mm.retry,
                        instance_id: None,
                        lock_at: None,
                    },
                ));
                assert(self.history@.subrange(0, pre.history@.len() as int) =~= pre.history@);
            }
            count = count + 1;
        }
        proof {
            if count < ENQUEUE_BATCH {
                assert(promote_due(self.scheduled@, now, (ENQUEUE_BATCH - count) as nat).1
                    =~= Seq::<ScheduledRow>::empty());
            }
            assert(promote_due(pre.scheduled@, now, ENQUEUE_BATCH as nat).1 =~= moved);
            let mapped = moved.map_values(
                |m: ScheduledRow| EnqueuedRow {
                    id: m.id,
                    retry: m.retry,
                    instance_id: None,
                    lock_at: None,
                },
            );
            assert(self.enqueued@.subrange(0, pre.enqueued@.len() as int) =~= pre.enqueued@);
            assert forall|k: int| 0 <= k < moved.len() implies (#[trigger] self.enqueued@[
                pre.enqueued@.len() + k
            ]) == (EnqueuedRow {
                id: moved[k].id,
                retry: moved[k].retry,
                instance_id: None,
                lock_at: None,
            }) by {
                assert(self.enqueued@[pre.enqueued@.len() + k] == mapped[k]);
            }
        }
        count as u64
    }

    /// Moving the due row at `m` from `scheduled` to the end of `enqueued`
    /// (same retry, no lease) and journaling it keeps the store well-formed.
    proof fn lemma_after_promote_one(&self, post: &QueueState, m: int)
        requires
            self.wf(),
            0 <= m < self.scheduled@.len(),
            post.next_job_id == self.next_job_id,
            post.jobs@ == self.jobs@,
            post.processed@ == self.processed@,
            post.schedules@ == self.schedules@,
            post.instances@ == self.instances@,
            post.scheduled@ == self.scheduled@.remove(m),
            post.enqueued@.len() == self.enqueued@.len() + 1,
            post.enqueued@.subrange(0, self.enqueued@.len() as int) == self.enqueued@,
            post.enqueued@.last().id == self.scheduled@[m].id,
            post.enqueued@.last().retry == self.scheduled@[m].retry,
            post.enqueued@.last().lock_at is None,
            post.history@.len() == self.history@.len() + 1,
            post.history@.subrange(0, self.history@.len() as int) == self.history@,
            !is_terminal(post.history@.last().status),
        ensures
            post.wf(),
    {
        let mid = self.scheduled@[m].id;
        assert forall|a: int, b: int|
            0 <= a < b < post.scheduled@.len() implies post.scheduled@[a].id
            != post.scheduled@[b].id by {
            assert(post.scheduled@[a] == self.scheduled@[if a < m {
                a
            } else {
                a + 1
            }]);
            assert(post.scheduled@[b] == self.scheduled@[if b < m {
                b
            } else {
                b + 1
            }]);
        }
        assert forall|a: int| 0 <= a < post.scheduled@.len() implies post.has_job(
            (#[trigger] post.scheduled@[a]).id,
        ) && (#[trigger] post.scheduled@[a]).retry >= 0 by {
            let a0 = if a < m {
                a
            } else {
                a + 1
            };
            assert(post.scheduled@[a] == self.scheduled@[a0]);
            assert(self.has_job(self.scheduled@[a0].id));
        }
        assert forall|a: int, b: int|
            0 <= a < b < post.enqueued@.len() implies post.enqueued@[a].id
            != post.enqueued@[b].id by {
            if b < self.enqueued@.len() {
                assert(post.enqueued@[a] == self.enqueued@[a]);
                assert(post.enqueued@[b] == self.enqueued@[b]);
            } else {
                assert(post.enqueued@[a] == self.enqueued@[a]);
                assert(self.scheduled@[m].id != self.enqueued@[a].id);
            }
        }
        assert forall|a: int| 0 <= a < post.enqueued@.len() implies post.has_job(
            (#[trigger] post.enqueued@[a]).id,
        ) && ((#[trigger] post.enqueued@[a]).lock_at is Some ==> post.enqueued@[a].instance_id
            is Some) && (#[trigger] post.enqueued@[a]).retry >= 0 by {
            if a < self.enqueued@.len() {
                assert(post.enqueued@[a] == self.enqueued@[a]);
                assert(self.has_job(self.enqueued@[a].id));
            } else {
                assert(self.has_job(mid));
                assert(self.scheduled@[m].retry >= 0);
            }
        }
        assert forall|a: int, b: int|
            0 <= a < post.scheduled@.len() && 0 <= b < post.enqueued@.len() implies
            post.scheduled@[a].id != post.enqueued@[b].id by {
            let a0 = if a < m {
                a
            } else {
                a + 1
            };
            assert(post.scheduled@[a] == self.scheduled@[a0]);
            if b < self.enqueued@.len() {
                assert(post.enqueued@[b] == self.enqueued@[b]);
            } else {
                assert(post.enqueued@[b].id == mid);
                assert(a0 != m);
            }
        }
        assert forall|a: int, b: int|
            0 <= a < post.scheduled@.len() && 0 <= b < post.processed@.len() implies
            post.scheduled@[a].id != post.processed@[b].id by {
            let a0 = if a < m {
                a
            } else {
                a + 1
            };
            assert(post.scheduled@[a] == self.scheduled@[a0]);
        }
        assert forall|a: int, b: int|
            0 <= a < post.enqueued@.len() && 0 <= b < post.processed@.len() implies
            post.enqueued@[a].id != post.processed@[b].id by {
            if a < self.enqueued@.len() {
                assert(post.enqueued@[a] == self.enqueued@[a]);
            } else {
                assert(post.enqueued@[a].id == mid);
                assert(self.scheduled@[m].id != self.processed@[b].id);
            }
        }
        assert forall|a: int|
            0 <= a < post.history@.len() && is_terminal(
                (#[trigger] post.history@[a]).status,
            ) implies post.has_processed(post.history@[a].id) by {
            assert(post.history@[a] == self.history@[a]);
            assert(self.has_processed(self.history@[a].id));
        }
        assert forall|a: int| 0 <= a < post.jobs@.len() implies post.job_located(
            (#[trigger] post.jobs@[a]).id,
        ) by {
            let id = self.jobs@[a].id;
            assert(self.job_located(id));
            if self.has_scheduled(id) {
                let w = choose|w: int|
                    0 <= w < self.scheduled@.len() && (#[trigger] self.scheduled@[w]).id == id;
                if w == m {
                    let last = post.enqueued@.len() - 1;
                    assert(post.enqueued@[last].id == id);
                } else {
                    let w2 = if w < m {
                        w
                    } else {
                        w - 1
                    };
                    assert(post.scheduled@[w2] == self.scheduled@[w]);
                }
            } else if self.has_enqueued(id) {
                let w = choose|w: int|
                    0 <= w < self.enqueued@.len() && (#[trigger] self.enqueued@[w]).id == id;
                assert(post.enqueued@[w].id == id);
            } else {
                let w = choose|w: int|
                    0 <= w < self.processed@.len() && (#[trigger] self.processed@[w]).id == id;
                assert(post.processed@[w].id == id);
            }
        }
    }

    /// Leases the `(retry, id)`-least free enqueued row for this instance:
    /// stamps the lease and journals `assigned`. Returns the leased entry.
    pub fn fetch_optional(&mut self, instance_id: &str, now: i64) -> (r: Option<JobEntry>)
        requires
            old(self).wf(),
        ensures
            final(self).wf(),
            final(self).next_job_id == old(self).next_job_id,
            final(self).jobs@ == old(self).jobs@,
            final(self).scheduled@ == old(self).scheduled@,
            final(self).processed@ == old(self).processed@,
            final(self).schedules@ == old(self).schedules@,
            final(self).instances@ == old(self).instances@,
            ({
                let m = free_min_upto(old(self).enqueued@, old(self).enqueued@.len());
                &&& (r is None <==> m == -1)
                &&& (r is None ==> final(self).enqueued@ == old(self).enqueued@ && final(self).history@ == old(self).history@)
                &&& (r matches Some(entry) ==> {
                    let row = old(self).enqueued@[m];
                    &&& entry.id == row.id
                    &&& entry.retry == row.retry
                    &&& row.lock_at is None
                    &&& final(self).enqueued@.len() == old(self).enqueued@.len()
                    &&& (forall|i: int|
                        0 <= i < final(self).enqueued@.len() && i != m ==> #[trigger] final(self).enqueued@[i] == old(self).enqueued@[i])
                    &&& final(self).enqueued@[m].id == row.id
                    &&& final(self).enqueued@[m].retry == row.retry
                    &&& opt_view(final(self).enqueued@[m].instance_id) == Some(instance_id@)
                    &&& final(self).enqueued@[m].lock_at == Some(now)
                    &&& history_appended(
                        old(self).history@,
                        final(self).history@,
                        row.id,
                        row.retry,
                        Some(instance_id@),
                        now,
                        HistoryStatus::Assigned,
                    )
                })
            }),
    {
        let m = match self.find_free_min() {
            Some(m) => m,
            None => {
                return None;
            },
        };
        proof {
            lemma_free_min_in_range(self.enqueued@, self.enqueued@.len());
        }
        let id = self.enqueued[m].id;
        let retry = self.enqueued[m].retry;
        self.enqueued.set(
            m,
            EnqueuedRow { id, retry, instance_id: Some(instance_id.to_owned()), lock_at: Some(now) },
        );
        self.history.push(
            JobHistoryRow {
                id,
                retry,
                instance_id: Some(instance_id.to_owned()),
                at: now,
                status: HistoryStatus::Assigned,
                message: None,
            },
        );
        proof {
            assert(self.history@.subrange(0, old(self).history@.len() as int) =~= old(
                self,
            ).history@);
            assert forall|a: int| 0 <= a < self.enqueued@.len() implies (
            #[trigger] self.enqueued@[a]).id == old(self).enqueued@[a].id by {}
            self.lemma_located_same_ids(old(self));
            assert forall|a: int|
                0 <= a < self.history@.len() && is_terminal(
                    (#[trigger] self.history@[a]).status,
                ) implies self.has_processed(self.history@[a].id) by {
                assert(self.history@[a] == old(self).history@[a]);
                assert(old(self).has_processed(self.history@[a].id));
            }
        }
        Some(JobEntry { id, retry })
    }

    /// Leases up to `prefetch` free enqueued rows for this instance,
    /// `(retry, id)`-least first: each is stamped with the lease and
    /// journaled as `assigned`. The entries come back in dispatch order.
    pub fn fetch_enqueued(&mut self, instance_id: &str, prefetch: usize, now: i64) -> (entries:
        Vec<JobEntry>)
        requires
            old(self).wf(),
        ensures
            final(self).wf(),
            final(self).next_job_id == old(self).next_job_id,
            final(self).jobs@ == old(self).jobs@,
            final(self).scheduled@ == old(self).scheduled@,
            final(self).processed@ == old(self).processed@,
            final(self).schedules@ == old(self).schedules@,
            final(self).instances@ == old(self).instances@,
            entries@.len() <= prefetch,
            final(self).enqueued@.len() == old(self).enqueued@.len(),
            forall|i: int|
                0 <= i < old(self).enqueued@.len() ==> (#[trigger] final(self).enqueued@[i] == old(
                    self,
                ).enqueued@[i] || stamped(
                    old(self).enqueued@[i],
                    final(self).enqueued@[i],
                    instance_id@,
                    now,
                    entries@,
                )),
            forall|k: int|
                0 <= k < entries@.len() ==> was_free_entry(
                    old(self).enqueued@,
                    #[trigger] entries@[k],
                ),
            forall|k1: int, k2: int|
                0 <= k1 < k2 < entries@.len() ==> lex_before(
                    entries@[k1].retry,
                    entries@[k1].id,
                    entries@[k2].retry,
                    entries@[k2].id,
                ),
            forall|k: int, i: int|
                0 <= k < entries@.len() && 0 <= i < final(self).enqueued@.len() && (
                #[trigger] final(self).enqueued@[i]).lock_at is None ==> lex_before(
                    (#[trigger] entries@[k]).retry,
                    entries@[k].id,
                    final(self).enqueued@[i].retry,
                    final(self).enqueued@[i].id,
                ),
            entries@.len() < prefetch ==> free_min_upto(
                final(self).enqueued@,
                final(self).enqueued@.len() as nat,
            ) == -1,
            final(self).history@.len() == old(self).history@.len() + entries@.len(),
            final(self).history@.subrange(0, old(self).history@.len() as int) == old(
                self,
            ).history@,
            forall|k: int|
                0 <= k < entries@.len() ==> {
                    let h = #[trigger] final(self).history@[old(self).history@.len() + k];
                    &&& h.id == entries@[k].id
                    &&& h.retry == entries@[k].retry
                    &&& opt_view(h.instance_id) == Some(instance_id@)
                    &&& h.at == now
                    &&& h.status == HistoryStatus::Assigned
                    &&& h.message is None
                },
    {
        let ghost pre = *self;
        let mut entries: Vec<JobEntry> = Vec::new();
        let mut done = false;
        while entries.len() < prefetch && !done
            invariant
                pre.wf(),
                self.wf(),
                entries@.len() <= prefetch,
                done ==> free_min_upto(self.enqueued@, self.enqueued@.len() as nat) == -1,
                self.next_job_id == pre.next_job_id,
                self.jobs@ == pre.jobs@,
                self.scheduled@ == pre.scheduled@,
                self.processed@ == pre.processed@,
                self.schedules@ == pre.schedules@,
                self.instances@ == pre.instances@,
                self.enqueued@.len() == pre.enqueued@.len(),
                forall|i: int|
                    0 <= i < pre.enqueued@.len() ==> (#[trigger] self.enqueued@[i]
                        == pre.enqueued@[i] || stamped(
                        pre.enqueued@[i],
                        self.enqueued@[i],
                        instance_id@,
                        now,
                        entries@,
                    )),
                forall|k: int|
                    0 <= k < entries@.len() ==> was_free_entry(
                        pre.enqueued@,
                        #[trigger] entries@[k],
                    ),
                forall|k1: int, k2: int|
                    0 <= k1 < k2 < entries@.len() ==> lex_before(
                        entries@[k1].retry,
                        entries@[k1].id,
                        entries@[k2].retry,
                        entries@[k2].id,
                    ),
                forall|k: int, i: int|
                    0 <= k < entries@.len() && 0 <= i < self.enqueued@.len() && (
                    #[trigger] self.enqueued@[i]).lock_at is None ==> lex_before(
                        (#[trigger] entries@[k]).retry,
                        entries@[k].id,
                        self.enqueued@[i].retry,
                        self.enqueued@[i].id,
                    ),
                self.history@.len() == pre.history@.len() + entries@.len(),
                self.history@.subrange(0, pre.history@.len() as int) == pre.history@,
                forall|k: int|
                    0 <= k < entries@.len() ==> {
                        let h = #[trigger] self.history@[pre.history@.len() + k];
                        &&& h.id == entries@[k].id
                        &&& h.retry == entries@[k].retry
                        &&& opt_view(h.instance_id) == Some(instance_id@)
                        &&& h.at == now
                        &&& h.status == HistoryStatus::Assigned
                        &&& h.message is None
                    },
            decreases prefetch - entries@.len() + (if done {
                0int
            } else {
                1int
            }),
        {
            let ghost step_pre = *self;
            let got = self.fetch_optional(instance_id, now);
            match got {
                None => {
                    done = true;
                },
                Some(entry) => {
                    proof {
                        let m = free_min_upto(step_pre.enqueued@, step_pre.enqueued@.len() as nat);
                        lemma_free_min_in_range(step_pre.enqueued@, step_pre.enqueued@.len() as nat);
                        lemma_free_min_is_min(step_pre.enqueued@, step_pre.enqueued@.len() as nat);
                        assert(step_pre.enqueued@[m] == pre.enqueued@[m]);
                        let entries2 = entries@.push(entry);
                        assert forall|i: int|
                            0 <= i < pre.enqueued@.len() implies (#[trigger] self.enqueued@[i]
                            == pre.enqueued@[i] || stamped(
                            pre.enqueued@[i],
                            self.enqueued@[i],
                            instance_id@,
                            now,
                            entries2,
                        )) by {
                            if i == m {
                                assert(entries2[entries@.len() as int] == entry);
                            } else {
                                assert(self.enqueued@[i] == step_pre.enqueued@[i]);
                                if step_pre.enqueued@[i] != pre.enqueued@[i] {
                                    assert(stamped(
                                        pre.enqueued@[i],
                                        step_pre.enqueued@[i],
                                        instance_id@,
                                        now,
                                        entries@,
                                    ));
                                    let k = choose|k: int|
                                        0 <= k < entries@.len() && (#[trigger] entries@[k])
                                            == (JobEntry {
                                            id: pre.enqueued@[i].id,
                                            retry: pre.enqueued@[i].retry,
                                        });
                                    assert(entries2[k] == entries@[k]);
                                }
                            }
                        }
                        assert forall|k1: int, k2: int|
                            0 <= k1 < k2 < entries2.len() implies lex_before(
                            entries2[k1].retry,
                            entries2[k1].id,
                            entries2[k2].retry,
                            entries2[k2].id,
                        ) by {
                            if k2 == entries@.len() as int {
                                assert(step_pre.enqueued@[m].lock_at is None);
                                assert(lex_before(
                                    entries@[k1].retry,
                                    entries@[k1].id,
                                    step_pre.enqueued@[m].retry,
                                    step_pre.enqueued@[m].id,
                                ));
                            }
                        }
                        assert forall|k: int, i: int|
                            0 <= k < entries2.len() && 0 <= i < self.enqueued@.len() && (
                            #[trigger] self.enqueued@[i]).lock_at is None implies lex_before(
                            (#[trigger] entries2[k]).retry,
                            entries2[k].id,
                            self.enqueued@[i].retry,
                            self.enqueued@[i].id,
                        ) by {
                            assert(i != m);
                            assert(self.enqueued@[i] == step_pre.enqueued@[i]);
                            if k < entries@.len() {
                                assert(entries2[k] == entries@[k]);
                            } else {
                                assert(entries2[k] == entry);
                                assert(!lex_before(
                                    step_pre.enqueued@[i].retry,
                                    step_pre.enqueued@[i].id,
                                    step_pre.enqueued@[m].retry,
                                    step_pre.enqueued@[m].id,
                                ));
                                assert(step_pre.enqueued@[i].id != step_pre.enqueued@[m].id);
                            }
                        }
                        assert(self.history@.subrange(0, pre.history@.len() as int)
                            =~= pre.history@);
                        assert forall|k: int| 0 <= k < entries2.len() implies was_free_entry(
                            pre.enqueued@,
                            #[trigger] entries2[k],
                        ) by {
                            if k < entries@.len() {
                                assert(entries2[k] == entries@[k]);
                                assert(was_free_entry(pre.enqueued@, entries@[k]));
                            } else {
                                assert(entries2[k] == entry);
                                assert(0 <= m < pre.enqueued@.len() && (
                                #[trigger] pre.enqueued@[m]).id == entry.id
                                    && pre.enqueued@[m].retry == entry.retry
                                    && pre.enqueued@[m].lock_at is None);
                            }
                        }
                        assert forall|k: int| 0 <= k < entries2.len() implies {
                            let h = #[trigger] self.history@[pre.history@.len() + k];
                            &&& h.id == entries2[k].id
                            &&& h.retry == entries2[k].retry
                            &&& opt_view(h.instance_id) == Some(instance_id@)
                            &&& h.at == now
                            &&& h.status == HistoryStatus::Assigned
                            &&& h.message is None
                        } by {
                            if k < entries@.len() {
                                assert(self.history@[pre.history@.len() + k] == step_pre.history@[
                                    pre.history@.len() + k
                                ]);
                                assert(entries2[k] == entries@[k]);
                            } else {
                                assert(self.history@[pre.history@.len() + k]
                                    == self.history@.last());
                            }
                        }
                    }
                    entries.push(entry);
                },
            }
        }
        entries
    }

    /// Marks expired live instances dead and re-opens the leases they held:
    /// those enqueued rows lose their lease and move one retry level up.
    /// Returns the number of instances fenced.
    pub fn kill_expired(&mut self, now: i64, ttl: i64) -> (r: u64)
        requires
            old(self).wf(),
            0 <= ttl <= now,
            forall|i: int| 0 <= i < old(self).enqueued@.len() ==> (#[trigger] old(
                self,
            ).enqueued@[i]).retry < i32::MAX,
        ensures
            final(self).wf(),
            fence_rel(*old(self), *final(self), now, ttl, r),
    {
        let ghost pre = *self;
        let mut i: usize = 0;
        while i < self.enqueued.len()
            invariant
                0 <= i <= self.enqueued@.len(),
                pre.wf(),
                0 <= ttl <= now,
                forall|k: int| 0 <= k < pre.enqueued@.len() ==> (#[trigger] pre.enqueued@[k]).retry
                    < i32::MAX,
                self.next_job_id == pre.next_job_id,
                self.jobs@ == pre.jobs@,
                self.scheduled@ == pre.scheduled@,
                self.processed@ == pre.processed@,
                self.schedules@ == pre.schedules@,
                self.history@ == pre.history@,
                self.instances@ == pre.instances@,
                self.enqueued@.len() == pre.enqueued@.len(),
                forall|k: int|
                    i <= k < pre.enqueued@.len() ==> #[trigger] self.enqueued@[k]
                        == pre.enqueued@[k],
                forall|k: int|
                    0 <= k < i ==> {
                        let o = #[trigger] pre.enqueued@[k];
                        if lease_expired(pre, o, now, ttl) {
                            self.enqueued@[k] == (EnqueuedRow {
                                id: o.id,
                                retry: (o.retry + 1) as i32,
                                instance_id: None,
                                lock_at: None,
                            })
                        } else {
                            self.enqueued@[k] == o
                        }
                    },
            decreases self.enqueued@.len() - i,
        {
            let expired = match &self.enqueued[i].instance_id {
                Some(s) => {
                    match self.find_instance_ref(s) {
                        Some(k) => {
                            let inst = &self.instances[k];
                            matches!(inst.status, InstanceStatus::Live) && inst.last_at < now - ttl
                        },
                        None => false,
                    }
                },
                None => false,
            };
            proof {
                let o = pre.enqueued@[i as int];
                if o.instance_id is Some {
                    if pre.has_instance(o.instance_id->0@) {
                        let w = pre.instance_idx(o.instance_id->0@);
                        assert(0 <= w < pre.instances@.len() && pre.instances@[w].id@
                            == o.instance_id->0@);
                    }
                }
            }
            if expired {
                let id = self.enqueued[i].id;
                let retry = self.enqueued[i].retry + 1;
                self.enqueued.set(
                    i,
                    EnqueuedRow { id, retry, instance_id: None, lock_at: None },
                );
            }
            i = i + 1;
        }
        let ghost mid = *self;
        let mut fenced: u64 = 0;
        let mut k: usize = 0;
        while k < self.instances.len()
            invariant
                0 <= k <= self.instances@.len(),
                pre.wf(),
                0 <= ttl <= now,
                self.next_job_id == mid.next_job_id,
                self.jobs@ == mid.jobs@,
                self.scheduled@ == mid.scheduled@,
                self.enqueued@ == mid.enqueued@,
                self.processed@ == mid.processed@,
                self.schedules@ == mid.schedules@,
                self.history@ == mid.history@,
                self.instances@.len() == pre.instances@.len(),
                mid.instances@ == pre.instances@,
                forall|t: int|
                    k <= t < pre.instances@.len() ==> #[trigger] self.instances@[t]
                        == pre.instances@[t],
                forall|t: int|
                    0 <= t < k ==> {
                        let o = #[trigger] pre.instances@[t];
                        if instance_expired(o, now, ttl) {
                            self.instances@[t].id@ == o.id@ && self.instances@[t].status is Dead
                                && self.instances@[t].last_at == o.last_at
                        } else {
                            self.instances@[t] == o
                        }
                    },
                fenced == count_expired(pre.instances@, now, ttl, k as nat),
            decreases self.instances@.len() - k,
        {
            proof {
                lemma_count_expired_le(pre.instances@, now, ttl, k as nat);
            }
            let row = &self.instances[k];
            if matches!(row.status, InstanceStatus::Live) && row.last_at < now - ttl {
                let id = row.id.clone();
                let last_at = row.last_at;
                self.instances.set(k, InstanceRow { id, status: InstanceStatus::Dead, last_at });
                fenced = fenced + 1;
            }
            k = k + 1;
        }
        proof {
            self.lemma_after_fence(pre, mid, now, ttl);
        }
        fenced
    }

    /// Finds the position of an instance id given as an owned string.
    fn find_instance_ref(&self, iid: &String) -> (r: Option<usize>)
        ensures
            r is Some <==> self.has_instance(iid@),
            r matches Some(i) ==> 0 <= i < self.instances@.len() && self.instances@[i as int].id@
                == iid@,
            self.wf() ==> (r matches Some(i) ==> i == self.instance_idx(iid@)),
    {
        self.find_instance(iid.as_str())
    }

    /// After fencing, the store is still well-formed.
    proof fn lemma_after_fence(&self, pre: QueueState, mid: QueueState, now: i64, ttl: i64)
        requires
            pre.wf(),
            self.next_job_id == pre.next_job_id,
            self.jobs@ == pre.jobs@,
            self.scheduled@ == pre.scheduled@,
            self.processed@ == pre.processed@,
            self.schedules@ == pre.schedules@,
            self.history@ == pre.history@,
            self.enqueued@.len() == pre.enqueued@.len(),
            forall|k: int|
                0 <= k < pre.enqueued@.len() ==> ((#[trigger] self.enqueued@[k]).id
                    == pre.enqueued@[k].id && self.enqueued@[k].retry >= pre.enqueued@[k].retry && (
                self.enqueued@[k].lock_at is Some ==> self.enqueued@[k].instance_id is Some)),
            self.instances@.len() == pre.instances@.len(),
            forall|t: int| 0 <= t < pre.instances@.len() ==> (#[trigger] self.instances@[t]).id@
                == pre.instances@[t].id@,
        ensures
            self.wf(),
    {
        assert forall|a: int, b: int|
            #![trigger self.enqueued@[a], self.enqueued@[b]]
            0 <= a < b < self.enqueued@.len() implies self.enqueued@[a].id
            != self.enqueued@[b].id by {
            assert(pre.enqueued@[a].id != pre.enqueued@[b].id);
        }
        assert forall|a: int| 0 <= a < self.enqueued@.len() implies self.has_job(
            (#[trigger] self.enqueued@[a]).id,
        ) && (#[trigger] self.enqueued@[a]).retry >= 0 by {
            assert(pre.has_job(pre.enqueued@[a].id));
            assert(pre.enqueued@[a].retry >= 0);
        }
        assert forall|a: int, b: int|
            #![trigger self.scheduled@[a], self.enqueued@[b]]
            0 <= a < self.scheduled@.len() && 0 <= b < self.enqueued@.len() implies
            self.scheduled@[a].id != self.enqueued@[b].id by {
            assert(pre.scheduled@[a].id != pre.enqueued@[b].id);
        }
        assert forall|a: int, b: int|
            #![trigger self.enqueued@[a], self.processed@[b]]
            0 <= a < self.enqueued@.len() && 0 <= b < self.processed@.len() implies
            self.enqueued@[a].id != self.processed@[b].id by {
            assert(pre.enqueued@[a].id != pre.processed@[b].id);
        }
        assert forall|a: int, b: int|
            #![trigger self.instances@[a], self.instances@[b]]
            0 <= a < b < self.instances@.len() implies self.instances@[a].id@
            != self.instances@[b].id@ by {
            assert(pre.instances@[a].id@ != pre.instances@[b].id@);
        }
        assert forall|a: int|
            0 <= a < self.history@.len() && is_terminal(
                (#[trigger] self.history@[a]).status,
            ) implies self.has_processed(self.history@[a].id) by {
            assert(pre.has_processed(pre.history@[a].id));
        }
        self.lemma_located_same_ids(&pre);
    }

    /// Deletes a job template and any waiting or enqueued row of it. The
    /// terminal record and the journal stay. Returns the rows removed from
    /// `jobs`.
    pub fn delete(&mut self, job_id: i64) -> (r: u64)
        requires
            old(self).wf(),
        ensures
            final(self).wf(),
            final(self).next_job_id == old(self).next_job_id,
            final(self).processed@ == old(self).processed@,
            final(self).schedules@ == old(self).schedules@,
            final(self).history@ == old(self).history@,
            final(self).instances@ == old(self).instances@,
            !old(self).has_job(job_id) ==> r == 0 && final(self).jobs@ == old(self).jobs@ && final(self).scheduled@ == old(self).scheduled@ && final(self).enqueued@ == old(self).enqueued@,
            old(self).has_job(job_id) ==> {
                &&& r == 1
                &&& final(self).jobs@ == old(self).jobs@.remove(old(self).job_idx(job_id))
                &&& (old(self).has_scheduled(job_id) ==> final(self).scheduled@ == old(
                    self,
                ).scheduled@.remove(old(self).scheduled_idx(job_id)))
                &&& (!old(self).has_scheduled(job_id) ==> final(self).scheduled@ == old(
                    self,
                ).scheduled@)
                &&& (old(self).has_enqueued(job_id) ==> final(self).enqueued@ == old(
                    self,
                ).enqueued@.remove(old(self).enq_idx(job_id)))
                &&& (!old(self).has_enqueued(job_id) ==> final(self).enqueued@ == old(
                    self,
                ).enqueued@)
            },
    {
        let i = match self.find_job(job_id) {
            Some(i) => i,
            None => {
                return 0;
            },
        };
        let _ = self.jobs.remove(i);
        if let Some(k) = self.find_scheduled(job_id) {
            let _ = self.scheduled.remove(k);
        }
        if let Some(k) = self.find_enqueued(job_id) {
            let _ = self.enqueued.remove(k);
        }
        proof {
            self.lemma_after_delete(*old(self), job_id);
        }
        1
    }

    /// Removing a job and its waiting rows keeps the store well-formed.
    proof fn lemma_after_delete(&self, pre: QueueState, job_id: i64)
        requires
            pre.wf(),
            pre.has_job(job_id),
            self.next_job_id == pre.next_job_id,
            self.jobs@ == pre.jobs@.remove(pre.job_idx(job_id)),
            self.processed@ == pre.processed@,
            self.schedules@ == pre.schedules@,
            self.history@ == pre.history@,
            self.instances@ == pre.instances@,
            pre.has_scheduled(job_id) ==> self.scheduled@ == pre.scheduled@.remove(
                pre.scheduled_idx(job_id),
            ),
            !pre.has_scheduled(job_id) ==> self.scheduled@ == pre.scheduled@,
            pre.has_enqueued(job_id) ==> self.enqueued@ == pre.enqueued@.remove(
                pre.enq_idx(job_id),
            ),
            !pre.has_enqueued(job_id) ==> self.enqueued@ == pre.enqueued@,
        ensures
            self.wf(),
    {
        let ji = pre.job_idx(job_id);
        assert(0 <= ji < pre.jobs@.len() && pre.jobs@[ji].id == job_id);
        let sdel = pre.has_scheduled(job_id);
        let edel = pre.has_enqueued(job_id);
        let si = pre.scheduled_idx(job_id);
        let ei = pre.enq_idx(job_id);
        if sdel {
            assert(0 <= si < pre.scheduled@.len() && pre.scheduled@[si].id == job_id);
        }
        if edel {
            assert(0 <= ei < pre.enqueued@.len() && pre.enqueued@[ei].id == job_id);
        }
        assert forall|a: int, b: int|
            #![trigger self.jobs@[a], self.jobs@[b]]
            0 <= a < b < self.jobs@.len() implies self.jobs@[a].id != self.jobs@[b].id && !(
            self.jobs@[a].external_id matches Some(x) && self.jobs@[b].external_id matches Some(y)
                && x@ == y@) by {
            let a0 = if a < ji {
                a
            } else {
                a + 1
            };
            let b0 = if b < ji {
                b
            } else {
                b + 1
            };
            assert(self.jobs@[a] == pre.jobs@[a0]);
            assert(self.jobs@[b] == pre.jobs@[b0]);
        }
        assert forall|a: int| 0 <= a < self.jobs@.len() implies 0 < (#[trigger] self.jobs@[a]).id
            < self.next_job_id by {
            assert(self.jobs@[a] == pre.jobs@[if a < ji {
                a
            } else {
                a + 1
            }]);
        }
        assert forall|a: int| 0 <= a < self.scheduled@.len() implies self.has_job(
            (#[trigger] self.scheduled@[a]).id,
        ) by {
            let a0 = if sdel && a >= si {
                a + 1
            } else {
                a
            };
            assert(self.scheduled@[a] == pre.scheduled@[a0]);
            let row_id = pre.scheduled@[a0].id;
            assert(pre.has_job(row_id));
            let w = pre.job_idx(row_id);
            if row_id == job_id {
                assert(sdel);
                assert(a0 != si);
                assert(false);
            } else {
                assert(pre.jobs@[w].id == row_id);
                assert(w != ji);
                let w2 = if w < ji {
                    w
                } else {
                    w - 1
                };
                assert(self.jobs@[w2] == pre.jobs@[w]);
            }
        }
        assert forall|a: int| 0 <= a < self.enqueued@.len() implies self.has_job(
            (#[trigger] self.enqueued@[a]).id,
        ) by {
            let a0 = if edel && a >= ei {
                a + 1
            } else {
                a
            };
            assert(self.enqueued@[a] == pre.enqueued@[a0]);
            let row_id = pre.enqueued@[a0].id;
            assert(pre.has_job(row_id));
            let w = pre.job_idx(row_id);
            if row_id == job_id {
                assert(edel);
                assert(a0 != ei);
                assert(false);
            } else {
                assert(pre.jobs@[w].id == row_id);
                assert(w != ji);
                let w2 = if w < ji {
                    w
                } else {
                    w - 1
                };
                assert(self.jobs@[w2] == pre.jobs@[w]);
            }
        }
        assert forall|a: int, b: int|
            #![trigger self.scheduled@[a], self.scheduled@[b]]
            0 <= a < b < self.scheduled@.len() implies self.scheduled@[a].id
            != self.scheduled@[b].id by {
            let a0 = if sdel && a >= si {
                a + 1
            } else {
                a
            };
            let b0 = if sdel && b >= si {
                b + 1
            } else {
                b
            };
            assert(self.scheduled@[a] == pre.scheduled@[a0]);
            assert(self.scheduled@[b] == pre.scheduled@[b0]);
        }
        assert forall|a: int, b: int|
            #![trigger self.enqueued@[a], self.enqueued@[b]]
            0 <= a < b < self.enqueued@.len() implies self.enqueued@[a].id
            != self.enqueued@[b].id by {
            let a0 = if edel && a >= ei {
                a + 1
            } else {
                a
            };
            let b0 = if edel && b >= ei {
                b + 1
            } else {
                b
            };
            assert(self.enqueued@[a] == pre.enqueued@[a0]);
            assert(self.enqueued@[b] == pre.enqueued@[b0]);
        }
        assert forall|a: int, b: int|
            #![trigger self.scheduled@[a], self.enqueued@[b]]
            0 <= a < self.scheduled@.len() && 0 <= b < self.enqueued@.len() implies
            self.scheduled@[a].id != self.enqueued@[b].id by {
            let a0 = if sdel && a >= si {
                a + 1
            } else {
                a
            };
            let b0 = if edel && b >= ei {
                b + 1
            } else {
                b
            };
            assert(self.scheduled@[a] == pre.scheduled@[a0]);
            assert(self.enqueued@[b] == pre.enqueued@[b0]);
        }
        assert forall|a: int, b: int|
            #![trigger self.scheduled@[a], self.processed@[b]]
            0 <= a < self.scheduled@.len() && 0 <= b < self.processed@.len() implies
            self.scheduled@[a].id != self.processed@[b].id by {
            let a0 = if sdel && a >= si {
                a + 1
            } else {
                a
            };
            assert(self.scheduled@[a] == pre.scheduled@[a0]);
        }
        assert forall|a: int, b: int|
            #![trigger self.enqueued@[a], self.processed@[b]]
            0 <= a < self.enqueued@.len() && 0 <= b < self.processed@.len() implies
            self.enqueued@[a].id != self.processed@[b].id by {
            let a0 = if edel && a >= ei {
                a + 1
            } else {
                a
            };
            assert(self.enqueued@[a] == pre.enqueued@[a0]);
        }
        assert forall|a: int| 0 <= a < self.scheduled@.len() implies (
        #[trigger] self.scheduled@[a]).retry >= 0 by {
            let a0 = if sdel && a >= si {
                a + 1
            } else {
                a
            };
            assert(self.scheduled@[a] == pre.scheduled@[a0]);
        }
        assert forall|a: int| 0 <= a < self.enqueued@.len() implies (
        #[trigger] self.enqueued@[a]).retry >= 0 && ((#[trigger] self.enqueued@[a]).lock_at
            is Some ==> self.enqueued@[a].instance_id is Some) by {
            let a0 = if edel && a >= ei {
                a + 1
            } else {
                a
            };
            assert(self.enqueued@[a] == pre.enqueued@[a0]);
        }
        assert forall|a: int|
            0 <= a < self.history@.len() && is_terminal(
                (#[trigger] self.history@[a]).status,
            ) implies self.has_processed(self.history@[a].id) by {
            assert(pre.has_processed(pre.history@[a].id));
        }
        assert forall|a: int| 0 <= a < self.jobs@.len() implies self.job_located(
            (#[trigger] self.jobs@[a]).id,
        ) by {
            let a0 = if a < ji {
                a
            } else {
                a + 1
            };
            assert(self.jobs@[a] == pre.jobs@[a0]);
            let id = pre.jobs@[a0].id;
            assert(a0 != ji);
            assert(id != job_id);
            assert(pre.job_located(id));
            if pre.has_scheduled(id) {
                let w = choose|w: int|
                    0 <= w < pre.scheduled@.len() && (#[trigger] pre.scheduled@[w]).id == id;
                if sdel {
                    assert(w != si);
                    let w2 = if w < si {
                        w
                    } else {
                        w - 1
                    };
                    assert(self.scheduled@[w2] == pre.scheduled@[w]);
                } else {
                    assert(self.scheduled@[w].id == id);
                }
            } else if pre.has_enqueued(id) {
                let w = choose|w: int|
                    0 <= w < pre.enqueued@.len() && (#[trigger] pre.enqueued@[w]).id == id;
                if edel {
                    assert(w != ei);
                    let w2 = if w < ei {
                        w
                    } else {
                        w - 1
                    };
                    assert(self.enqueued@[w2] == pre.enqueued@[w]);
                } else {
                    assert(self.enqueued@[w].id == id);
                }
            } else {
                let w = choose|w: int|
                    0 <= w < pre.processed@.len() && (#[trigger] pre.processed@[w]).id == id;
                assert(self.processed@[w].id == id);
            }
        }
    }
}

/// The rows of the journal that belong to one job id, in journal order.
pub open spec fn history_for(s: Seq<JobHistoryRow>, id: i64) -> Seq<JobHistoryRow>
    decreases s.len(),
{
    if s.len() == 0 {
        Seq::empty()
    } else {
        let rest = history_for(s.drop_last(), id);
        if s.last().id == id {
            rest.push(s.last())
        } else {
            rest
        }
    }
}

impl QueueState {
    /// Fetches a job template by id.
    pub fn get_by_id(&self, job_id: i64) -> (r: Option<JobRow>)
        requires
            self.wf(),
        ensures
            r is Some <==> self.has_job(job_id),
            r matches Some(j) ==> {
                let src = self.job_at(job_id);
                &&& j.id == job_id
                &&& j.meta == src.meta
                &&& opt_headers_view(j.headers) == opt_headers_view(src.headers)
                &&& opt_bytes_view(j.body) == opt_bytes_view(src.body)
                &&& opt_view(j.schedule_id) == opt_view(src.schedule_id)
                &&& opt_view(j.external_id) == opt_view(src.external_id)
            },
    {
        let i = match self.find_job(job_id) {
            Some(i) => i,
            None => {
                return None;
            },
        };
        let row = &self.jobs[i];
        Some(
            JobRow {
                id: row.id,
                meta: clone_meta(&row.meta),
                headers: clone_opt_headers(&row.headers),
                body: clone_opt_bytes(&row.body),
                schedule_id: clone_opt_string(&row.schedule_id),
                external_id: clone_opt_string(&row.external_id),
            },
        )
    }

    /// Answers the idempotency lookup: the job that carries this external id.
    pub fn get_id_by_external_id(&self, external_id: &str) -> (r: Option<JobCreateRow>)
        requires
            self.wf(),
        ensures
            r is Some <==> self.has_external(external_id@),
            r matches Some(row) ==> {
                let src = self.jobs@[self.ext_idx(external_id@)];
                &&& row.id == src.id
                &&& opt_view(row.schedule_id) == opt_view(src.schedule_id)
                &&& opt_view(row.external_id) == opt_view(src.external_id)
            },
    {
        let i = match self.find_external(external_id) {
            Some(i) => i,
            None => {
                return None;
            },
        };
        let row = &self.jobs[i];
        Some(
            JobCreateRow {
                id: row.id,
                schedule_id: clone_opt_string(&row.schedule_id),
                external_id: clone_opt_string(&row.external_id),
            },
        )
    }

    /// Fetches a schedule row by its id.
    pub fn schedules_get_by_id(&self, schedule_id: &str) -> (r: Option<ScheduleRow>)
        requires
            self.wf(),
        ensures
            r is Some <==> self.has_schedule_row(schedule_id@),
            r matches Some(row) ==> row == self.schedule_row_at(schedule_id@),
    {
        let i = match self.find_schedule_row(schedule_id) {
            Some(i) => i,
            None => {
                return None;
            },
        };
        Some(clone_schedule_row(&self.schedules[i]))
    }

    /// Lists schedule rows in table order, with paging.
    pub fn schedules_get_all(&self, limit: usize, offset: usize) -> (r: Vec<ScheduleRow>)
        requires
            offset + limit <= usize::MAX,
        ensures
            ({
                let lo = if offset > self.schedules@.len() {
                    self.schedules@.len() as int
                } else {
                    offset as int
                };
                let hi = if offset + limit > self.schedules@.len() {
                    self.schedules@.len() as int
                } else {
                    offset + limit
                };
                r@ == self.schedules@.subrange(lo, hi)
            }),
    {
        let len = self.schedules.len();
        let lo = if offset > len {
            len
        } else {
            offset
        };
        let hi = if offset + limit > len {
            len
        } else {
            offset + limit
        };
        let mut out: Vec<ScheduleRow> = Vec::new();
        let mut i: usize = lo;
        while i < hi
            invariant
                lo <= i <= hi <= self.schedules@.len(),
                out@ == self.schedules@.subrange(lo as int, i as int),
            decreases hi - i,
        {
            out.push(clone_schedule_row(&self.schedules[i]));
            proof {
                assert(out@ =~= self.schedules@.subrange(lo as int, i + 1));
            }
            i = i + 1;
        }
        out
    }

    /// Sets or clears a schedule's `inactive` flag. Returns the rows changed.
    pub fn schedules_inactive(&mut self, schedule_id: &str, inactive: bool) -> (r: u64)
        requires
            old(self).wf(),
        ensures
            final(self).wf(),
            final(self).next_job_id == old(self).next_job_id,
            final(self).jobs@ == old(self).jobs@,
            final(self).scheduled@ == old(self).scheduled@,
            final(self).enqueued@ == old(self).enqueued@,
            final(self).processed@ == old(self).processed@,
            final(self).history@ == old(self).history@,
            final(self).instances@ == old(self).instances@,
            !old(self).has_schedule_row(schedule_id@) ==> r == 0 && final(self).schedules@ == old(
                self,
            ).schedules@,
            old(self).has_schedule_row(schedule_id@) ==> {
                let i = old(self).schedule_row_idx(schedule_id@);
                let o = old(self).schedules@[i];
                &&& r == 1
                &&& final(self).schedules@ == old(self).schedules@.update(
                    i,
                    (ScheduleRow {
                        schedule_id: o.schedule_id,
                        schedule: o.schedule,
                        until: o.until,
                        last_id: o.last_id,
                        last_at: o.last_at,
                        next_id: o.next_id,
                        next_at: o.next_at,
                        inactive,
                    }),
                )
            },
    {
        let i = match self.find_schedule_row(schedule_id) {
            Some(i) => i,
            None => {
                return 0;
            },
        };
        let row = &self.schedules[i];
        let updated = ScheduleRow {
            schedule_id: row.schedule_id.clone(),
            schedule: row.schedule.clone(),
            until: row.until,
            last_id: row.last_id,
            last_at: row.last_at,
            next_id: row.next_id,
            next_at: row.next_at,
            inactive,
        };
        self.schedules.set(i, updated);
        proof {
            self.lemma_located_same_ids(old(self));
            assert forall|a: int, b: int|
                #![trigger self.schedules@[a], self.schedules@[b]]
                0 <= a < b < self.schedules@.len() implies self.schedules@[a].schedule_id@
                != self.schedules@[b].schedule_id@ by {
                assert(old(self).schedules@[a].schedule_id@ != old(
                    self,
                ).schedules@[b].schedule_id@);
            }
        }
        1
    }

    /// Deletes a schedule row. Returns the rows removed.
    pub fn schedules_delete(&mut self, schedule_id: &str) -> (r: u64)
        requires
            old(self).wf(),
        ensures
            final(self).wf(),
            final(self).next_job_id == old(self).next_job_id,
            final(self).jobs@ == old(self).jobs@,
            final(self).scheduled@ == old(self).scheduled@,
            final(self).enqueued@ == old(self).enqueued@,
            final(self).processed@ == old(self).processed@,
            final(self).history@ == old(self).history@,
            final(self).instances@ == old(self).instances@,
            !old(self).has_schedule_row(schedule_id@) ==> r == 0 && final(self).schedules@ == old(
                self,
            ).schedules@,
            old(self).has_schedule_row(schedule_id@) ==> r == 1 && final(self).schedules@ == old(
                self,
            ).schedules@.remove(old(self).schedule_row_idx(schedule_id@)),
    {
        let i = match self.find_schedule_row(schedule_id) {
            Some(i) => i,
            None => {
                return 0;
            },
        };
        let _ = self.schedules.remove(i);
        proof {
            self.lemma_located_same_ids(old(self));
            assert forall|a: int, b: int|
                #![trigger self.schedules@[a], self.schedules@[b]]
                0 <= a < b < self.schedules@.len() implies self.schedules@[a].schedule_id@
                != self.schedules@[b].schedule_id@ by {
                let a0 = if a < i as int {
                    a
                } else {
                    a + 1
                };
                let b0 = if b < i as int {
                    b
                } else {
                    b + 1
                };
                assert(self.schedules@[a] == old(self).schedules@[a0]);
                assert(self.schedules@[b] == old(self).schedules@[b0]);
            }
        }
        1
    }

    /// Fetches one job's journal, in order, with paging.
    pub fn get_history_by_id(&self, job_id: i64, limit: usize, offset: usize) -> (r: Vec<
        JobHistoryRow,
    >)
        requires
            offset + limit <= usize::MAX,
        ensures
            ({
                let all = history_for(self.history@, job_id);
                let lo = if offset > all.len() {
                    all.len() as int
                } else {
                    offset as int
                };
                let hi = if offset + limit > all.len() {
                    all.len() as int
                } else {
                    offset + limit
                };
                r@ == all.subrange(lo, hi)
            }),
    {
        let mut all: Vec<JobHistoryRow> = Vec::new();
        let mut i: usize = 0;
        proof {
            assert(all@ =~= history_for(self.history@.subrange(0, 0), job_id));
        }
        while i < self.history.len()
            invariant
                0 <= i <= self.history@.len(),
                all@ == history_for(self.history@.subrange(0, i as int), job_id),
            decreases self.history@.len() - i,
        {
            let row = &self.history[i];
            if row.id == job_id {
                all.push(
                    JobHistoryRow {
                        id: row.id,
                        retry: row.retry,
                        instance_id: clone_opt_string(&row.instance_id),
                        at: row.at,
                        status: row.status,
                        message: clone_opt_string(&row.message),
                    },
                );
            }
            proof {
                assert(self.history@.subrange(0, i + 1).drop_last() =~= self.history@.subrange(
                    0,
                    i as int,
                ));
                assert(self.history@.subrange(0, i + 1).last() == self.history@[i as int]);
            }
            i = i + 1;
        }
        proof {
            assert(self.history@.subrange(0, self.history@.len() as int) =~= self.history@);
        }
        let len = all.len();
        let lo = if offset > len {
            len
        } else {
            offset
        };
        let hi = if offset + limit > len {
            len
        } else {
            offset + limit
        };
        let mut out: Vec<JobHistoryRow> = Vec::new();
        let mut k: usize = lo;
        while k < hi
            invariant
                lo <= k <= hi <= all@.len(),
                all@ == history_for(self.history@, job_id),
                out@ == all@.subrange(lo as int, k as int),
            decreases hi - k,
        {
            let row = &all[k];
            out.push(
                JobHistoryRow {
                    id: row.id,
                    retry: row.retry,
                    instance_id: clone_opt_string(&row.instance_id),
                    at: row.at,
                    status: row.status,
                    message: clone_opt_string(&row.message),
                },
            );
            proof {
                assert(out@ =~= all@.subrange(lo as int, k + 1));
            }
            k = k + 1;
        }
        out
    }

    /// Fetches the terminal record of a job, as its result payload.
    pub fn results_get_by_id(&self, job_id: i64) -> (r: Option<crate::result::JobResultRow>)
        requires
            self.wf(),
        ensures
            r is Some <==> self.has_processed(job_id),
            r matches Some(row) ==> exists|i: int|
                0 <= i < self.processed@.len() && {
                    let p = #[trigger] self.processed@[i];
                    &&& p.id == job_id
                    &&& row.id == p.id
                    &&& row.meta == p.meta
                    &&& opt_headers_view(row.headers) == opt_headers_view(p.headers)
                    &&& opt_bytes_view(row.body) == opt_bytes_view(p.body)
                },
    {
        let mut i: usize = 0;
        while i < self.processed.len()
            invariant
                0 <= i <= self.processed@.len(),
                forall|k: int| 0 <= k < i ==> (#[trigger] self.processed@[k]).id != job_id,
            decreases self.processed@.len() - i,
        {
            let p = &self.processed[i];
            if p.id == job_id {
                return Some(
                    crate::result::JobResultRow {
                        id: p.id,
                        meta: clone_result_meta(&p.meta),
                        headers: clone_opt_headers(&p.headers),
                        body: clone_opt_bytes(&p.body),
                    },
                );
            }
            i = i + 1;
        }
        None
    }

    /// Lists instance rows in table order, with paging.
    pub fn instances_get_all(&self, limit: usize, offset: usize) -> (r: Vec<InstanceRow>)
        requires
            offset + limit <= usize::MAX,
        ensures
            ({
                let lo = if offset > self.instances@.len() {
                    self.instances@.len() as int
                } else {
                    offset as int
                };
                let hi = if offset + limit > self.instances@.len() {
                    self.instances@.len() as int
                } else {
                    offset + limit
                };
                r@ == self.instances@.subrange(lo, hi)
            }),
    {
        let len = self.instances.len();
        let lo = if offset > len {
            len
        } else {
            offset
        };
        let hi = if offset + limit > len {
            len
        } else {
            offset + limit
        };
        let mut out: Vec<InstanceRow> = Vec::new();
        let mut i: usize = lo;
        while i < hi
            invariant
                lo <= i <= hi <= self.instances@.len(),
                out@ == self.instances@.subrange(lo as int, i as int),
            decreases hi - i,
        {
            let row = &self.instances[i];
            out.push(InstanceRow { id: row.id.clone(), status: row.status, last_at: row.last_at });
            proof {
                assert(out@ =~= self.instances@.subrange(lo as int, i + 1));
            }
            i = i + 1;
        }
        out
    }
}

/// Clones a schedule row.
fn clone_schedule_row(o: &ScheduleRow) -> (r: ScheduleRow)
    ensures
        r == *o,
{
    ScheduleRow {
        schedule_id: o.schedule_id.clone(),
        schedule: o.schedule.clone(),
        until: o.until,
        last_id: o.last_id,
        last_at: o.last_at,
        next_id: o.next_id,
        next_at: o.next_at,
        inactive: o.inactive,
    }
}

/// Clones a result's meta payload.
fn clone_result_meta(o: &JobResultMeta) -> (r: JobResultMeta)
    ensures
        r == *o,
{
    let result = match &o.result {
        crate::result::JobResultType::Null => crate::result::JobResultType::Null,
        crate::result::JobResultType::Cancelled => crate::result::JobResultType::Cancelled,
        crate::result::JobResultType::Timeout => crate::result::JobResultType::Timeout,
        crate::result::JobResultType::Error { error } => crate::result::JobResultType::Error {
            error: error.clone(),
        },
        crate::result::JobResultType::Http(m) => crate::result::JobResultType::Http(*m),
    };
    JobResultMeta { result }
}

/// The entry names a row that was free in the given table.
pub open spec fn was_free_entry(pre_enq: Seq<EnqueuedRow>, entry: JobEntry) -> bool {
    exists|i: int|
        0 <= i < pre_enq.len() && (#[trigger] pre_enq[i]).id == entry.id && pre_enq[i].retry
            == entry.retry && pre_enq[i].lock_at is None
}

/// A free row became leased by `inst` at `now` and its entry was returned.
pub open spec fn stamped(
    pre_row: EnqueuedRow,
    post_row: EnqueuedRow,
    inst: Seq<char>,
    now: i64,
    entries: Seq<JobEntry>,
) -> bool {
    &&& pre_row.lock_at is None
    &&& post_row.id == pre_row.id
    &&& post_row.retry == pre_row.retry
    &&& opt_view(post_row.instance_id) == Some(inst)
    &&& post_row.lock_at == Some(now)
    &&& exists|k: int|
        0 <= k < entries.len() && (#[trigger] entries[k]) == (JobEntry {
            id: pre_row.id,
            retry: pre_row.retry,
        })
}

/// The free minimum really is minimal among the free rows, and a `-1` answer
/// means no free row exists.
proof fn lemma_free_min_is_min(s: Seq<EnqueuedRow>, n: nat)
    requires
        n <= s.len(),
    ensures
        free_min_upto(s, n) == -1 ==> forall|i: int|
            0 <= i < n ==> !((#[trigger] s[i]).lock_at is None),
        free_min_upto(s, n) != -1 ==> forall|i: int|
            0 <= i < n && (#[trigger] s[i]).lock_at is None ==> !lex_before(
                s[i].retry,
                s[i].id,
                s[free_min_upto(s, n)].retry,
                s[free_min_upto(s, n)].id,
            ),
    decreases n,
{
    if n > 0 {
        lemma_free_min_is_min(s, (n - 1) as nat);
        lemma_free_min_in_range(s, (n - 1) as nat);
        let m = free_min_upto(s, n);
        let prev = free_min_upto(s, (n - 1) as nat);
        if m != -1 {
            assert forall|i: int|
                0 <= i < n && (#[trigger] s[i]).lock_at is None implies !lex_before(
                s[i].retry,
                s[i].id,
                s[m].retry,
                s[m].id,
            ) by {
                if i < n - 1 {
                    assert(prev != -1);
                    assert(!lex_before(s[i].retry, s[i].id, s[prev].retry, s[prev].id));
                }
            }
        }
    }
}

/// A live instance whose heartbeat is older than the ttl.
pub open spec fn instance_expired(row: InstanceRow, now: i64, ttl: i64) -> bool {
    row.status is Live && row.last_at < now - ttl
}

/// An enqueued row whose leasing instance has expired.
pub open spec fn lease_expired(pre: QueueState, row: EnqueuedRow, now: i64, ttl: i64) -> bool {
    row.instance_id is Some && exists|w: int|
        0 <= w < pre.instances@.len() && (#[trigger] pre.instances@[w]).id@ == row.instance_id->0@
            && instance_expired(pre.instances@[w], now, ttl)
}

/// How many of the first `n` instance rows are expired.
pub open spec fn count_expired(s: Seq<InstanceRow>, now: i64, ttl: i64, n: nat) -> int
    decreases n,
{
    if n == 0 {
        0
    } else {
        count_expired(s, now, ttl, (n - 1) as nat) + (if instance_expired(
            s[n - 1],
            now,
            ttl,
        ) {
            1int
        } else {
            0int
        })
    }
}

proof fn lemma_count_expired_le(s: Seq<InstanceRow>, now: i64, ttl: i64, n: nat)
    requires
        n <= s.len(),
    ensures
        0 <= count_expired(s, now, ttl, n) <= n,
    decreases n,
{
    if n > 0 {
        lemma_count_expired_le(s, now, ttl, (n - 1) as nat);
    }
}

/// Clones a job's meta payload.
fn clone_meta(o: &crate::job::JobMeta) -> (r: crate::job::JobMeta)
    ensures
        r == *o,
{
    let protocol = match &o.protocol {
        crate::job::JobProtocol::Null => crate::job::JobProtocol::Null,
        crate::job::JobProtocol::Http(h) => crate::job::JobProtocol::Http(
            crate::job::HttpMeta { method: h.method.clone(), url: h.url.clone() },
        ),
    };
    crate::job::JobMeta { protocol, retry: o.retry, delay: o.delay, timeout: o.timeout }
}

/// The view of an optional header list.
pub open spec fn opt_headers_view(o: Option<Vec<(String, String)>>) -> Option<
    Seq<(String, String)>,
> {
    match o {
        Some(v) => Some(v@),
        None => None,
    }
}

/// The view of an optional byte buffer.
pub open spec fn opt_bytes_view(o: Option<Vec<u8>>) -> Option<Seq<u8>> {
    match o {
        Some(v) => Some(v@),
        None => None,
    }
}

/// Clones an optional header list.
fn clone_opt_headers(o: &Option<Vec<(String, String)>>) -> (r: Option<Vec<(String, String)>>)
    ensures
        opt_headers_view(r) == opt_headers_view(*o),
{
    match o {
        Some(v) => {
            let mut out: Vec<(String, String)> = Vec::new();
            let mut i: usize = 0;
            while i < v.len()
                invariant
                    0 <= i <= v@.len(),
                    out@ == v@.subrange(0, i as int),
                decreases v@.len() - i,
            {
                let pair = &v[i];
                out.push((pair.0.clone(), pair.1.clone()));
                proof {
                    assert(out@ =~= v@.subrange(0, i + 1));
                }
                i = i + 1;
            }
            proof {
                assert(out@ =~= v@);
            }
            Some(out)
        },
        None => None,
    }
}

/// Clones an optional byte buffer.
fn clone_opt_bytes(o: &Option<Vec<u8>>) -> (r: Option<Vec<u8>>)
    ensures
        opt_bytes_view(r) == opt_bytes_view(*o),
{
    match o {
        Some(v) => {
            let mut out: Vec<u8> = Vec::new();
            let mut i: usize = 0;
            while i < v.len()
                invariant
                    0 <= i <= v@.len(),
                    out@ == v@.subrange(0, i as int),
                decreases v@.len() - i,
            {
                out.push(v[i]);
                proof {
                    assert(out@ =~= v@.subrange(0, i + 1));
                }
                i = i + 1;
            }
            proof {
                assert(out@ =~= v@);
            }
            Some(out)
        },
        None => None,
    }
}

/// Relies on ulid's `Ulid::generate` and its Crockford base32 rendering: a
/// fresh identifier whose text is always 26 characters; nothing more can be
/// promised of a random value.
#[verifier::external_body]
fn fresh_ulid() -> (r: String)
    ensures
        r@.len() == 26,
{
    ulid::Ulid::generate().to_string()
}

/// Clones an optional owned string.
fn clone_opt_string(o: &Option<String>) -> (r: Option<String>)
    ensures
        r == *o,
{
    match o {
        Some(s) => Some(s.clone()),
        None => None,
    }
}

/// Compares two string slices.
fn str_eq(a: &str, b: &str) -> (r: bool)
    ensures
        r == (a@ == b@),
{
    a.to_owned() == b.to_owned()
}

} // verus!
