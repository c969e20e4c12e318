use irisqo::errors::Error;
use irisqo::job::{HttpMeta, JobCreate, JobMeta, JobProtocol};
use irisqo::result::{HttpVersion, JobResult, JobResultType, ProcessedStatus};
use irisqo::retry::JobRetry;
use irisqo::runner::{classify_outcome, job_complete, scheduler_tick, RunOutcome, RunnerAction};
use irisqo::schedule::JobSchedule;
use irisqo::store::{HistoryStatus, InstanceStatus, QueueState};

fn http_job(retry: JobRetry, timeout: u32) -> JobCreate {
    JobCreate {
        meta: JobMeta {
            protocol: JobProtocol::Http(HttpMeta {
                method: "POST".into(),
                url: "http://echo.local/ok".into(),
            }),
            retry,
            delay: None,
            timeout,
        },
        headers: None,
        body: b"hello".to_vec(),
        at: None,
        schedule: None,
        until: None,
        external_id: None,
    }
}

fn ok_response(body: &[u8]) -> RunOutcome {
    RunOutcome::Response {
        status_code: 200,
        version: HttpVersion::Http11,
        headers: Some(vec![("content-type".into(), "text/plain".into())]),
        body: body.to_vec(),
    }
}

fn server_error() -> RunOutcome {
    RunOutcome::Response {
        status_code: 500,
        version: HttpVersion::Http11,
        headers: None,
        body: Vec::new(),
    }
}

fn statuses(q: &QueueState, id: i64) -> Vec<HistoryStatus> {
    q.get_history_by_id(id, 100, 0)
        .iter()
        .map(|h| h.status)
        .collect()
}

#[test]
fn immediate_success_end_to_end() {
    let mut q = QueueState::new();
    let row = q.create(http_job(JobRetry::Never, 3000), "a:1", 0).unwrap();
    let id = row.id;
    assert_eq!(1, q.jobs.len());
    assert!(matches!(
        q.jobs[0].meta.protocol,
        JobProtocol::Http(ref m) if m.url == "http://echo.local/ok"
    ));

    let entry = q.fetch_optional("a:1", 0).unwrap();
    assert_eq!(id, entry.id);
    assert_eq!(0, entry.retry);

    let job = q.get_by_id(id).unwrap();
    let outcome = classify_outcome(ok_response(b"hello"));
    let act = job_complete(
        &mut q,
        entry,
        &job.meta,
        &job.schedule_id,
        outcome,
        "a:1",
        0,
    );
    assert_eq!(RunnerAction::Completed, act);

    assert_eq!(1, q.processed.len());
    assert_eq!(ProcessedStatus::Completed, q.processed[0].status);
    assert_eq!(Some(b"hello".to_vec()), q.processed[0].body);
    assert_eq!(
        vec![
            HistoryStatus::Enqueued,
            HistoryStatus::Assigned,
            HistoryStatus::Completed
        ],
        statuses(&q, id)
    );
}

#[test]
fn retry_on_500_until_failed() {
    let mut q = QueueState::new();
    let retry = JobRetry::from_str("2|fixed|1").unwrap();
    let row = q.create(http_job(retry, 3000), "a:1", 0).unwrap();
    let id = row.id;

    // t = 0: first attempt fails with 500, retried for t = 1.
    let entry = q.fetch_optional("a:1", 0).unwrap();
    let job = q.get_by_id(id).unwrap();
    let act = job_complete(
        &mut q,
        entry,
        &job.meta,
        &job.schedule_id,
        classify_outcome(server_error()),
        "a:1",
        0,
    );
    assert_eq!(RunnerAction::Retried { at: 1 }, act);
    assert_eq!(1, q.scheduled.len());
    assert_eq!(1, q.scheduled[0].at);

    // t = 1: promoted, fails again, retried for t = 2.
    assert_eq!(1, q.enqueue_scheduled("a:1", 1));
    let entry = q.fetch_optional("a:1", 1).unwrap();
    assert_eq!(1, entry.retry);
    let act = job_complete(
        &mut q,
        entry,
        &job.meta,
        &job.schedule_id,
        classify_outcome(server_error()),
        "a:1",
        1,
    );
    assert_eq!(RunnerAction::Retried { at: 2 }, act);

    // t = 2: promoted, fails for good.
    assert_eq!(1, q.enqueue_scheduled("a:1", 2));
    let entry = q.fetch_optional("a:1", 2).unwrap();
    assert_eq!(2, entry.retry);
    let act = job_complete(
        &mut q,
        entry,
        &job.meta,
        &job.schedule_id,
        classify_outcome(server_error()),
        "a:1",
        2,
    );
    assert_eq!(RunnerAction::Failed, act);
    assert_eq!(ProcessedStatus::Failed, q.processed[0].status);
    assert_eq!(
        vec![
            HistoryStatus::Enqueued,
            HistoryStatus::Assigned,
            HistoryStatus::Retried,
            HistoryStatus::Enqueued,
            HistoryStatus::Assigned,
            HistoryStatus::Retried,
            HistoryStatus::Enqueued,
            HistoryStatus::Assigned,
            HistoryStatus::Failed
        ],
        statuses(&q, id)
    );
}

#[test]
fn timeout_then_unlock_then_failed() {
    let mut q = QueueState::new();
    let retry = JobRetry::from_str("1|fixed|0").unwrap();
    let row = q.create(http_job(retry, 50), "a:1", 0).unwrap();
    let id = row.id;

    let entry = q.fetch_optional("a:1", 0).unwrap();
    let job = q.get_by_id(id).unwrap();
    let act = job_complete(
        &mut q,
        entry,
        &job.meta,
        &job.schedule_id,
        classify_outcome(RunOutcome::TimedOut),
        "a:1",
        0,
    );
    assert_eq!(RunnerAction::Unlocked, act);
    // The lease is re-opened at once.
    assert_eq!(1, q.enqueued.len());
    assert!(q.enqueued[0].lock_at.is_none());

    let entry = q.fetch_optional("a:1", 0).unwrap();
    assert_eq!(1, entry.retry);
    let act = job_complete(
        &mut q,
        entry,
        &job.meta,
        &job.schedule_id,
        classify_outcome(RunOutcome::TimedOut),
        "a:1",
        0,
    );
    assert_eq!(RunnerAction::Failed, act);
    assert_eq!(ProcessedStatus::Failed, q.processed[0].status);
    assert!(matches!(
        q.processed[0].meta.result,
        JobResultType::Timeout
    ));
}

#[test]
fn recurring_interval_advances_schedule() {
    let mut q = QueueState::new();
    let mut job = http_job(JobRetry::Never, 3000);
    job.schedule = Some(JobSchedule::Interval { interval: 60 });
    let row = q.create(job, "a:1", 1020).unwrap();
    let id = row.id;
    let sid = row.schedule_id.clone().unwrap();
    assert_eq!(26, sid.len());
    assert_eq!(1, q.scheduled.len());
    assert_eq!(1080, q.scheduled[0].at);

    // t = 1080: the occurrence runs and completes; the schedule advances.
    assert_eq!(1, q.enqueue_scheduled("a:1", 1080));
    let entry = q.fetch_optional("a:1", 1080).unwrap();
    let job_row = q.get_by_id(id).unwrap();
    let act = job_complete(
        &mut q,
        entry,
        &job_row.meta,
        &job_row.schedule_id,
        classify_outcome(ok_response(b"ok")),
        "a:1",
        1080,
    );
    assert_eq!(RunnerAction::Completed, act);

    assert_eq!(2, q.jobs.len());
    let clone = &q.jobs[1];
    assert_ne!(id, clone.id);
    assert_eq!(Some(sid.clone()), clone.schedule_id);
    assert!(clone.external_id.is_none());
    assert_eq!(1, q.scheduled.len());
    assert_eq!(1140, q.scheduled[0].at);

    let srow = q.schedules_get_by_id(&sid).unwrap();
    assert_eq!(Some(clone.id), srow.next_id);
    assert_eq!(Some(1140), srow.next_at);
}

#[test]
fn peer_fencing_reopens_lease() {
    let mut q = QueueState::new();
    q.instance_live("a:1", 0);
    let row = q.create(http_job(JobRetry::Never, 3000), "a:1", 0).unwrap();
    let entry = q.fetch_optional("a:1", 5).unwrap();
    assert_eq!(row.id, entry.id);
    assert!(q.enqueued[0].lock_at.is_some());

    // Instance a:1 dies silently; instance b:2 fences it after the ttl.
    q.instance_live("b:2", 40);
    let moved = scheduler_tick(&mut q, "b:2", 40);
    assert_eq!(0, moved);
    assert!(q.enqueued[0].lock_at.is_none());
    assert!(q.enqueued[0].instance_id.is_none());
    assert_eq!(1, q.enqueued[0].retry);
    let fenced = q
        .instances_get_all(10, 0)
        .into_iter()
        .find(|i| i.id == "a:1")
        .unwrap();
    assert_eq!(InstanceStatus::Dead, fenced.status);

    // b:2 can now lease the job.
    let entry = q.fetch_optional("b:2", 41).unwrap();
    assert_eq!(row.id, entry.id);
    assert_eq!(1, entry.retry);
}

#[test]
fn idempotent_create_by_external_id() {
    let mut q = QueueState::new();
    let mut job = http_job(JobRetry::Never, 3000);
    job.external_id = Some("abc".into());
    let first = q.create(job, "a:1", 0).unwrap();

    let mut again = http_job(JobRetry::Never, 3000);
    again.external_id = Some("abc".into());
    let second = q.create(again, "a:1", 5).unwrap();

    assert_eq!(first.id, second.id);
    assert_eq!(1, q.jobs.len());
    assert_eq!(Some("abc".to_string()), q.jobs[0].external_id);
}

#[test]
fn lease_prefers_low_retry_then_low_id() {
    let mut q = QueueState::new();
    let a = q.create(http_job(JobRetry::Never, 3000), "a:1", 0).unwrap();
    let b = q.create(http_job(JobRetry::Never, 3000), "a:1", 0).unwrap();
    let c = q.create(http_job(JobRetry::Never, 3000), "a:1", 0).unwrap();
    // Bump job a one retry level up: it now comes last.
    q.unlock(a.id, "a:1", 0);

    let entries = q.fetch_enqueued("a:1", 10, 1);
    let ids: Vec<i64> = entries.iter().map(|e| e.id).collect();
    assert_eq!(vec![b.id, c.id, a.id], ids);
    assert!(q.enqueued.iter().all(|e| e.lock_at == Some(1)));
}

#[test]
fn delete_removes_template_and_waiting_rows() {
    let mut q = QueueState::new();
    let mut job = http_job(JobRetry::Never, 3000);
    job.at = Some(100);
    let row = q.create(job, "a:1", 0).unwrap();
    assert_eq!(1, q.scheduled.len());
    assert_eq!(1, q.delete(row.id));
    assert!(q.jobs.is_empty());
    assert!(q.scheduled.is_empty());
    assert_eq!(0, q.delete(row.id));
}

#[test]
fn create_rejects_exhausted_schedule() {
    let mut q = QueueState::new();
    let mut job = http_job(JobRetry::Never, 3000);
    job.schedule = Some(JobSchedule::Interval { interval: 60 });
    job.until = Some(1019);
    let err = q.create(job, "a:1", 1000).unwrap_err();
    assert!(matches!(err, Error::InvalidParams("schedule")));
    assert!(q.jobs.is_empty());
}

#[test]
fn inactive_schedule_does_not_advance() {
    let mut q = QueueState::new();
    let mut job = http_job(JobRetry::Never, 3000);
    job.schedule = Some(JobSchedule::Interval { interval: 60 });
    let row = q.create(job, "a:1", 1000).unwrap();
    let sid = row.schedule_id.unwrap();
    assert_eq!(1, q.schedules_inactive(&sid, true));

    assert_eq!(1, q.enqueue_scheduled("a:1", 1060));
    let entry = q.fetch_optional("a:1", 1060).unwrap();
    let job_row = q.get_by_id(row.id).unwrap();
    job_complete(
        &mut q,
        entry,
        &job_row.meta,
        &job_row.schedule_id,
        classify_outcome(ok_response(b"ok")),
        "a:1",
        1060,
    );
    // Terminal record written, but no new occurrence.
    assert_eq!(1, q.jobs.len());
    assert!(q.scheduled.is_empty());
    assert_eq!(1, q.processed.len());
}

#[test]
fn result_replay_filters_content_headers() {
    let res = JobResult::http(
        200,
        HttpVersion::Http11,
        Some(vec![
            ("content-type".into(), "text/plain".into()),
            ("server".into(), "upstream".into()),
            ("content-length".into(), "5".into()),
        ]),
        b"hello".to_vec(),
    );
    let (status, headers, body) = res.into_response_parts();
    assert_eq!(200, status);
    assert_eq!(b"hello".to_vec(), body);
    assert_eq!(
        vec![
            ("content-type".to_string(), "text/plain".to_string()),
            ("content-length".to_string(), "5".to_string())
        ],
        headers
    );

    let empty = JobResult::empty();
    let (status, headers, body) = empty.into_response_parts();
    assert_eq!(204, status);
    assert!(headers.is_empty());
    assert!(body.is_empty());
}
