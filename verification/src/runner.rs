//! The worker's decisions: classifying an HTTP attempt, choosing between
//! retry, immediate re-dispatch and terminal failure, advancing a recurring
//! schedule, and the scheduler's tick.
//!
//! The surrounding loops perform the outside work (the HTTP call, the timer);
//! every decision and every store transition they drive stands here.

use vstd::prelude::*;

use crate::errors::Error;
use crate::job::{JobEntry, JobMeta};
use crate::result::{from_error_spec, HttpVersion, JobResult};
use crate::schedule::{spec_next_of_text, spec_schedule_ok, spec_text_fireable, JobSchedule};
use crate::store::{clone_rel, fence_rel, live_rel, processed_rel, promote_rel, retry_rel,
    unlock_rel, QueueState};
use crate::MAX_EPOCH_SECS;

verus! {

/// How long a silent peer may stay live, in seconds.
pub const INSTANCE_TTL_SECS: i64 = 30;

/// What came back from one outbound HTTP attempt.
#[derive(Debug, Clone)]
pub enum RunOutcome {
    /// The upstream answered.
    Response {
        status_code: u16,
        version: HttpVersion,
        headers: Option<Vec<(String, String)>>,
        body: Vec<u8>,
    },
    /// The per-job deadline passed first.
    TimedOut,
    /// The transport failed before an answer arrived.
    TransportFailed,
}

/// What the runner did with a finished attempt.
#[derive(Debug, Clone, Copy, PartialEq, Eq, Structural)]
pub enum RunnerAction {
    Completed,
    Failed,
    Unlocked,
    Retried { at: i64 },
}

/// Classifies an HTTP attempt: 5xx and 4xx answers become retryable errors
/// carrying the full response, a timeout or transport failure becomes its
/// error kind, and everything else succeeds with the packed response.
pub fn classify_outcome(outcome: RunOutcome) -> (r: Result<JobResult, Error>)
    ensures
        match outcome {
            RunOutcome::Response { status_code, version, headers, body } => {
                let res = JobResult {
                    meta: crate::result::JobResultMeta {
                        result: crate::result::JobResultType::Http(
                            crate::result::HttpResponseMeta { status_code, version },
                        ),
                    },
                    headers,
                    body,
                };
                if 500 <= status_code < 600 {
                    r == Err::<JobResult, Error>(Error::ServerError(res))
                } else if 400 <= status_code < 500 {
                    r == Err::<JobResult, Error>(Error::ClientError(res))
                } else {
                    r == Ok::<JobResult, Error>(res)
                }
            },
            RunOutcome::TimedOut => r matches Err(e) && e is Timeout,
            RunOutcome::TransportFailed => r matches Err(e) && e is HttpTransportError,
        },
{
    match outcome {
        RunOutcome::Response { status_code, version, headers, body } => {
            let res = JobResult::http(status_code, version, headers, body);
            if 500 <= status_code && status_code < 600 {
                Err(Error::ServerError(res))
            } else if 400 <= status_code && status_code < 500 {
                Err(Error::ClientError(res))
            } else {
                Ok(res)
            }
        },
        RunOutcome::TimedOut => Err(Error::Timeout),
        RunOutcome::TransportFailed => Err(Error::HttpTransportError),
    }
}

/// The retry level as the policy sees it, saturating into sixteen bits.
pub open spec fn sat16(retry: i32) -> u16 {
    if retry > u16::MAX {
        u16::MAX
    } else {
        retry as u16
    }
}

fn saturate_retry(retry: i32) -> (r: u16)
    requires
        retry >= 0,
    ensures
        r == sat16(retry),
{
    if retry > u16::MAX as i32 {
        u16::MAX
    } else {
        retry as u16
    }
}

/// The next fire of a schedule row, or `None` when the row is missing,
/// inactive, unparseable or exhausted.
pub open spec fn spec_schedule_next_at(s: QueueState, sid: Seq<char>, now: i64) -> Option<i64> {
    if s.has_schedule_row(sid) && !s.schedule_row_at(sid).inactive && spec_schedule_ok(
        s.schedule_row_at(sid).schedule@,
    ) && spec_text_fireable(s.schedule_row_at(sid).schedule@) {
        spec_next_of_text(s.schedule_row_at(sid).schedule@, now, s.schedule_row_at(sid).until)
    } else {
        None
    }
}

/// Looks the schedule up, parses its stored text and computes the next fire
/// after `now`, honouring `until` and the `inactive` flag. A returned fire is
/// strictly after `now`.
pub fn schedule_next_at(q: &QueueState, sid: &str, now: i64) -> (r: Option<i64>)
    requires
        q.wf(),
        0 <= now <= MAX_EPOCH_SECS,
    ensures
        r == spec_schedule_next_at(*q, sid@, now),
        r matches Some(t) ==> t > now,
{
    let k = match q.find_schedule_row(sid) {
        Some(k) => k,
        None => {
            return None;
        },
    };
    let row = &q.schedules[k];
    if row.inactive {
        return None;
    }
    let parsed = match JobSchedule::from_str(row.schedule.as_str()) {
        Ok(v) => v,
        Err(_) => {
            return None;
        },
    };
    proof {
        crate::schedule::lemma_next_of_text(parsed, row.schedule@, now, row.until);
    }
    match parsed.try_next(now, row.until) {
        Ok(o) => o,
        Err(_) => None,
    }
}

/// Whether a terminal outcome advances the job's schedule, and to when.
pub open spec fn advance_cond(mid: QueueState, schedule_id: Option<Seq<char>>, now: i64) -> bool {
    schedule_id is Some && spec_schedule_next_at(mid, schedule_id->0, now) is Some
}

/// What happens to the store after the terminal record is written: an active
/// schedule with a next fire clones the job forward; anything else leaves the
/// store as the terminal write left it.
pub open spec fn advance_rel(
    mid: QueueState,
    post: QueueState,
    job_id: i64,
    schedule_id: Option<Seq<char>>,
    inst: Seq<char>,
    now: i64,
) -> bool {
    if advance_cond(mid, schedule_id, now) {
        let at = spec_schedule_next_at(mid, schedule_id->0, now)->0;
        if mid.has_job(job_id) {
            clone_rel(mid, post, job_id, at, inst, now, Ok(mid.next_job_id))
        } else {
            exists|e: Error| clone_rel(mid, post, job_id, at, inst, now, Err(e))
        }
    } else {
        post == mid
    }
}

/// A terminal outcome: the result is persisted and, where a live recurrence
/// points here, the schedule advances to a fresh job id.
pub open spec fn terminal_rel(
    pre: QueueState,
    post: QueueState,
    job_id: i64,
    result: JobResult,
    schedule_id: Option<Seq<char>>,
    inst: Seq<char>,
    now: i64,
) -> bool {
    exists|mid: QueueState|
        #[trigger] processed_rel(pre, mid, job_id, result, now) && advance_rel(
            mid,
            post,
            job_id,
            schedule_id,
            inst,
            now,
        )
}

/// Persists the terminal record and advances the schedule where one applies.
fn finish(
    q: &mut QueueState,
    job_id: i64,
    schedule_id: &Option<String>,
    result: JobResult,
    instance_id: &str,
    now: i64,
)
    requires
        old(q).wf(),
        old(q).next_job_id < i64::MAX,
        0 <= now <= MAX_EPOCH_SECS,
    ensures
        final(q).wf(),
        terminal_rel(
            *old(q),
            *final(q),
            job_id,
            result,
            crate::store::opt_view(*schedule_id),
            instance_id@,
            now,
        ),
{
    let _ = q.processed(job_id, result, now);
    let ghost mid = *q;
    if let Some(sid) = schedule_id {
        if let Some(at) = schedule_next_at(q, sid.as_str(), now) {
            let r = q.clone_schedule_at(job_id, at, instance_id, now);
            proof {
                if mid.has_job(job_id) {
                    assert(clone_rel(mid, *q, job_id, at, instance_id@, now, r));
                    assert(r matches Ok(v) && v == mid.next_job_id);
                } else {
                    assert(clone_rel(mid, *q, job_id, at, instance_id@, now, r));
                    assert(r matches Err(e) && clone_rel(
                        mid,
                        *q,
                        job_id,
                        at,
                        instance_id@,
                        now,
                        Err(e),
                    ));
                }
            }
        }
    }
    proof {
        assert(processed_rel(*old(q), mid, job_id, result, now));
        assert(advance_rel(
            mid,
            *q,
            job_id,
            crate::store::opt_view(*schedule_id),
            instance_id@,
            now,
        ));
    }
}

/// Completes one leased attempt, given what the attempt produced: a success
/// or non-retryable failure is persisted (advancing a live recurrence), a
/// retryable failure consults the policy and either fails terminally,
/// re-opens the lease at once, or schedules the next attempt.
pub fn job_complete(
    q: &mut QueueState,
    entry: JobEntry,
    meta: &JobMeta,
    schedule_id: &Option<String>,
    outcome: Result<JobResult, Error>,
    instance_id: &str,
    now: i64,
) -> (act: RunnerAction)
    requires
        old(q).wf(),
        old(q).next_job_id < i64::MAX,
        0 <= now <= MAX_EPOCH_SECS,
        entry.retry >= 0,
        meta.retry.product_fits(sat16(entry.retry)),
        old(q).has_enqueued(entry.id) ==> old(q).enq_at(entry.id).retry < i32::MAX,
    ensures
        final(q).wf(),
        ({
            let idx = sat16(entry.retry);
            let sid = crate::store::opt_view(*schedule_id);
            match outcome {
                Ok(res) => act == RunnerAction::Completed && terminal_rel(
                    *old(q),
                    *final(q),
                    entry.id,
                    res,
                    sid,
                    instance_id@,
                    now,
                ),
                Err(e) => {
                    if e.spec_is_retryable() {
                        match meta.retry.spec_next_retry_in(idx) {
                            None => act == RunnerAction::Failed && (exists|res: JobResult|
                                #[trigger] from_error_spec(e, res) && terminal_rel(
                                    *old(q),
                                    *final(q),
                                    entry.id,
                                    res,
                                    sid,
                                    instance_id@,
                                    now,
                                )),
                            Some(d) => {
                                if d == 0 {
                                    act == RunnerAction::Unlocked && unlock_rel(
                                        *old(q),
                                        *final(q),
                                        entry.id,
                                        instance_id@,
                                        now,
                                    )
                                } else {
                                    act == (RunnerAction::Retried { at: (now + d) as i64 })
                                        && retry_rel(
                                        *old(q),
                                        *final(q),
                                        entry.id,
                                        (now + d) as i64,
                                        now,
                                    )
                                }
                            },
                        }
                    } else {
                        act == RunnerAction::Failed && (exists|res: JobResult|
                            #[trigger] from_error_spec(e, res) && terminal_rel(
                                *old(q),
                                *final(q),
                                entry.id,
                                res,
                                sid,
                                instance_id@,
                                now,
                            ))
                    }
                },
            }
        }),
{
    match outcome {
        Ok(res) => {
            finish(q, entry.id, schedule_id, res, instance_id, now);
            RunnerAction::Completed
        },
        Err(e) => {
            if e.is_retryable() {
                let idx = saturate_retry(entry.retry);
                match meta.retry.next_retry_in(idx) {
                    None => {
                        let res = JobResult::from_error(e);
                        finish(q, entry.id, schedule_id, res, instance_id, now);
                        RunnerAction::Failed
                    },
                    Some(d) => {
                        if d == 0 {
                            let _ = q.unlock(entry.id, instance_id, now);
                            RunnerAction::Unlocked
                        } else {
                            let at = now + d as i64;
                            let _ = q.retry(entry.id, at, now);
                            RunnerAction::Retried { at }
                        }
                    },
                }
            } else {
                let res = JobResult::from_error(e);
                finish(q, entry.id, schedule_id, res, instance_id, now);
                RunnerAction::Failed
            }
        },
    }
}

/// One scheduler tick: heartbeat, fence expired peers (re-opening their
/// leases), then promote due scheduled rows. Returns the rows promoted.
pub fn scheduler_tick(q: &mut QueueState, instance_id: &str, now: i64) -> (moved: u64)
    requires
        old(q).wf(),
        INSTANCE_TTL_SECS <= now <= MAX_EPOCH_SECS,
        forall|i: int| 0 <= i < old(q).enqueued@.len() ==> (#[trigger] old(q).enqueued@[i]).retry
            < i32::MAX,
    ensures
        final(q).wf(),
        exists|m1: QueueState, m2: QueueState, fenced: u64|
            #![trigger fence_rel(m1, m2, now, INSTANCE_TTL_SECS, fenced)]
            live_rel(*old(q), m1, instance_id@, now) && fence_rel(
                m1,
                m2,
                now,
                INSTANCE_TTL_SECS,
                fenced,
            ) && promote_rel(m2, *final(q), instance_id@, now, moved),
{
    q.instance_live(instance_id, now);
    let ghost m1 = *q;
    proof {
        assert forall|i: int| 0 <= i < m1.enqueued@.len() implies (#[trigger] m1.enqueued@[i]).retry
            < i32::MAX by {
            assert(m1.enqueued@[i] == old(q).enqueued@[i]);
        }
    }
    let fenced = q.kill_expired(now, INSTANCE_TTL_SECS);
    let ghost m2 = *q;
    let moved = q.enqueue_scheduled(instance_id, now);
    proof {
        assert(live_rel(*old(q), m1, instance_id@, now) && fence_rel(
            m1,
            m2,
            now,
            INSTANCE_TTL_SECS,
            fenced,
        ) && promote_rel(m2, *q, instance_id@, now, moved));
    }
    moved
}

} // verus!
