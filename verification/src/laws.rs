//! The store's global guarantees, stated on their own: where a job can be,
//! what a terminal journal entry implies, how a recurrence advances, and the
//! idempotency of creation.

use vstd::prelude::*;

use crate::job::JobCreate;
use crate::result::JobResult;
use crate::runner::{advance_rel, spec_schedule_next_at, terminal_rel};
use crate::store::{create_rel, processed_rel, QueueState};

verus! {

/// A job id that exists lives in exactly one of `scheduled`, `enqueued` and
/// `processed`: at least one holds it, and no two do.
pub proof fn lemma_one_location(s: QueueState, id: i64)
    requires
        s.wf(),
    ensures
        s.has_job(id) ==> s.job_located(id),
        !(s.has_scheduled(id) && s.has_enqueued(id)),
        !(s.has_scheduled(id) && s.has_processed(id)),
        !(s.has_enqueued(id) && s.has_processed(id)),
{
    if s.has_job(id) {
        let w = choose|w: int| 0 <= w < s.jobs@.len() && (#[trigger] s.jobs@[w]).id == id;
        assert(s.job_located(s.jobs@[w].id));
    }
    if s.has_scheduled(id) && s.has_enqueued(id) {
        let i = choose|i: int|
            0 <= i < s.scheduled@.len() && (#[trigger] s.scheduled@[i]).id == id;
        let j = choose|j: int| 0 <= j < s.enqueued@.len() && (#[trigger] s.enqueued@[j]).id == id;
        assert(s.scheduled@[i].id != s.enqueued@[j].id);
    }
    if s.has_scheduled(id) && s.has_processed(id) {
        let i = choose|i: int|
            0 <= i < s.scheduled@.len() && (#[trigger] s.scheduled@[i]).id == id;
        let j = choose|j: int| 0 <= j < s.processed@.len() && (#[trigger] s.processed@[j]).id == id;
        assert(s.scheduled@[i].id != s.processed@[j].id);
    }
    if s.has_enqueued(id) && s.has_processed(id) {
        let i = choose|i: int| 0 <= i < s.enqueued@.len() && (#[trigger] s.enqueued@[i]).id == id;
        let j = choose|j: int| 0 <= j < s.processed@.len() && (#[trigger] s.processed@[j]).id == id;
        assert(s.enqueued@[i].id != s.processed@[j].id);
    }
}

/// Every history row with a terminal status points at a terminal record: the
/// processed row exists and no waiting or enqueued row remains for that id.
pub proof fn lemma_terminal_history(s: QueueState, k: int)
    requires
        s.wf(),
        0 <= k < s.history@.len(),
        crate::store::is_terminal(s.history@[k].status),
    ensures
        s.has_processed(s.history@[k].id),
        !s.has_scheduled(s.history@[k].id),
        !s.has_enqueued(s.history@[k].id),
{
    assert(s.has_processed(s.history@[k].id));
    lemma_one_location(s, s.history@[k].id);
}

/// Two `create` calls with the same external id return the same job id, and
/// the second call adds no `jobs` row: the store does not change at all.
///
/// The second request must still pass the schedule gate (a recurring request
/// whose `until` has already passed is rejected before the idempotency check,
/// as it would be on first creation).
pub proof fn lemma_create_idempotent(
    s0: QueueState,
    s1: QueueState,
    s2: QueueState,
    job: JobCreate,
    inst1: Seq<char>,
    inst2: Seq<char>,
    now1: i64,
    now2: i64,
    r1: Result<crate::job::JobCreateRow, crate::errors::Error>,
    r2: Result<crate::job::JobCreateRow, crate::errors::Error>,
)
    requires
        s0.wf(),
        s1.wf(),
        job.external_id is Some,
        create_rel(s0, s1, job, inst1, now1, r1),
        create_rel(s1, s2, job, inst2, now2, r2),
        r1 is Ok,
        !(job.schedule is Some && (!job.schedule->0.spec_fireable() || job.schedule->0.spec_next(
            if job.at is Some {
                job.at->0
            } else {
                now2
            },
            job.until,
        ) is None)),
    ensures
        r2 is Ok,
        r1->Ok_0.id == r2->Ok_0.id,
        s2 == s1,
{
    let e = job.external_id->0@;
    if s0.has_external(e) {
        assert(s1 == s0);
        assert(s1.has_external(e));
    } else {
        let row1 = r1->Ok_0;
        assert(row1.id == s0.next_job_id);
        assert(s1.jobs@.last().external_id == job.external_id);
        assert(s1.has_external(e)) by {
            let last = s1.jobs@.len() - 1;
            assert((s1.jobs@[last].external_id matches Some(x) && x@ == e));
        }
    }
    let i = s1.ext_idx(e);
    assert(0 <= i < s1.jobs@.len() && (s1.jobs@[i].external_id matches Some(x) && x@ == e));
    if s0.has_external(e) {
        let i0 = s0.ext_idx(e);
        assert(0 <= i0 < s0.jobs@.len() && (s0.jobs@[i0].external_id matches Some(x) && x@ == e));
        if i != i0 {
            let lo = if i < i0 {
                i
            } else {
                i0
            };
            let hi = if i < i0 {
                i0
            } else {
                i
            };
            assert(!(s1.jobs@[lo].external_id matches Some(a) && s1.jobs@[hi].external_id
                matches Some(b) && a@ == b@));
            assert(false);
        }
        assert(r2->Ok_0.id == s0.jobs@[i0].id);
        assert(r1->Ok_0.id == s0.jobs@[i0].id);
    } else {
        let last = s1.jobs@.len() - 1;
        if i != last {
            assert(s1.jobs@[i] == s0.jobs@[i]);
            assert(s0.has_external(e)) by {
                assert((s0.jobs@[i].external_id matches Some(x) && x@ == e));
            }
            assert(false);
        }
        assert(r2->Ok_0.id == s1.jobs@[last].id);
        assert(r1->Ok_0.id == s0.next_job_id);
    }
}

/// A recurring job that terminates advances its schedule: exactly one new
/// `jobs` row appears, carrying the same schedule id, and the schedule's
/// `next_id`/`next_at` point at the new row and its computed fire time.
pub proof fn lemma_recurrence_advances(
    pre: QueueState,
    post: QueueState,
    job_id: i64,
    result: JobResult,
    sid: Seq<char>,
    inst: Seq<char>,
    now: i64,
)
    requires
        pre.wf(),
        terminal_rel(pre, post, job_id, result, Some(sid), inst, now),
        pre.has_job(job_id),
        crate::store::opt_view(pre.job_at(job_id).schedule_id) == Some(sid),
        spec_schedule_next_at(pre, sid, now) is Some,
    ensures
        post.jobs@.len() == pre.jobs@.len() + 1,
        post.jobs@.last().id == pre.next_job_id,
        post.jobs@.last().external_id is None,
        post.jobs@.last().meta == pre.job_at(job_id).meta,
        pre.has_schedule_row(sid) ==> {
            let at = spec_schedule_next_at(pre, sid, now)->0;
            &&& post.schedules@[pre.schedule_row_idx(sid)].next_id == Some(pre.next_job_id)
            &&& post.schedules@[pre.schedule_row_idx(sid)].next_at == Some(at)
            &&& post.has_scheduled(pre.next_job_id)
            &&& post.scheduled@.last() == (crate::store::ScheduledRow {
                id: pre.next_job_id,
                at,
                retry: 0,
            })
        },
{
    let mid = choose|mid: QueueState|
        #[trigger] processed_rel(pre, mid, job_id, result, now) && advance_rel(
            mid,
            post,
            job_id,
            Some(sid),
            inst,
            now,
        );
    assert(mid.jobs@ == pre.jobs@);
    assert(mid.schedules@ == pre.schedules@);
    assert(mid.next_job_id == pre.next_job_id);
    assert(mid.has_job(job_id)) by {
        let w = pre.job_idx(job_id);
        assert(0 <= w < mid.jobs@.len() && mid.jobs@[w].id == job_id);
    }
    assert(mid.has_schedule_row(sid) == pre.has_schedule_row(sid)) by {
        if pre.has_schedule_row(sid) {
            let w = pre.schedule_row_idx(sid);
            assert(0 <= w < mid.schedules@.len() && mid.schedules@[w].schedule_id@ == sid);
        }
        if mid.has_schedule_row(sid) {
            let w = mid.schedule_row_idx(sid);
            assert(0 <= w < pre.schedules@.len() && pre.schedules@[w].schedule_id@ == sid);
        }
    }
    assert(spec_schedule_next_at(mid, sid, now) == spec_schedule_next_at(pre, sid, now)) by {
        if pre.has_schedule_row(sid) {
            assert(mid.schedule_row_idx(sid) == pre.schedule_row_idx(sid)) by {
                let wp = pre.schedule_row_idx(sid);
                let wm = mid.schedule_row_idx(sid);
                assert(0 <= wp < pre.schedules@.len() && pre.schedules@[wp].schedule_id@ == sid);
                assert(0 <= wm < mid.schedules@.len() && mid.schedules@[wm].schedule_id@ == sid);
                if wp != wm {
                    assert(pre.schedules@[wp].schedule_id@ != pre.schedules@[wm].schedule_id@);
                    assert(false);
                }
            }
        }
    }
    assert(mid.job_at(job_id) == pre.job_at(job_id)) by {
        let wp = pre.job_idx(job_id);
        let wm = mid.job_idx(job_id);
        assert(0 <= wp < pre.jobs@.len() && pre.jobs@[wp].id == job_id);
        assert(0 <= wm < mid.jobs@.len() && mid.jobs@[wm].id == job_id);
        if wp != wm {
            assert(pre.jobs@[wp].id != pre.jobs@[wm].id);
            assert(false);
        }
    }
    let at = spec_schedule_next_at(pre, sid, now)->0;
    assert(crate::store::clone_rel(mid, post, job_id, at, inst, now, Ok(mid.next_job_id)));
    if pre.has_schedule_row(sid) {
        let w = pre.schedule_row_idx(sid);
        let src = mid.job_at(job_id);
        assert(src.schedule_id is Some && src.schedule_id->0@ == sid);
        assert(mid.has_schedule_row(sid)) by {
            assert(0 <= w < mid.schedules@.len() && mid.schedules@[w].schedule_id@ == sid);
        }
        let ws = mid.schedule_row_idx(sid);
        assert(ws == w) by {
            assert(0 <= ws < mid.schedules@.len() && mid.schedules@[ws].schedule_id@ == sid);
            if ws != w {
                assert(pre.schedules@[ws].schedule_id@ != pre.schedules@[w].schedule_id@);
                assert(false);
            }
        }
        assert(post.schedules@[w].next_id == Some(pre.next_job_id));
        assert(post.schedules@[w].next_at == Some(at));
        assert(post.scheduled@.last() == (crate::store::ScheduledRow {
            id: pre.next_job_id,
            at,
            retry: 0,
        }));
        assert(post.has_scheduled(pre.next_job_id)) by {
            let last = post.scheduled@.len() - 1;
            assert(post.scheduled@[last].id == pre.next_job_id);
        }
    }
}

} // verus!
