use irisqo::job::{JobCreate, JobMeta, JobProtocol};
use irisqo::result::JobResultType;
use irisqo::retry::JobRetry;
use irisqo::runner::{classify_outcome, job_complete, RunOutcome};
use irisqo::store::{HistoryStatus, InstanceStatus, QueueState};

fn plain_job() -> JobCreate {
    JobCreate {
        meta: JobMeta {
            protocol: JobProtocol::Null,
            retry: JobRetry::Never,
            delay: None,
            timeout: 3000,
        },
        headers: None,
        body: Vec::new(),
        at: None,
        schedule: None,
        until: None,
        external_id: None,
    }
}

#[test]
fn instance_lifecycle() {
    let mut q = QueueState::new();
    q.instance_live("a:1", 10);
    q.instance_live("b:2", 11);
    q.instance_live("a:1", 12);
    let all = q.instances_get_all(10, 0);
    assert_eq!(2, all.len());
    assert_eq!("a:1", all[0].id);
    assert_eq!(12, all[0].last_at);
    assert_eq!(InstanceStatus::Live, all[0].status);

    assert_eq!(1, q.kill("a:1"));
    assert_eq!(0, q.kill("missing"));
    let all = q.instances_get_all(10, 0);
    assert_eq!(InstanceStatus::Dead, all[0].status);
    assert_eq!(InstanceStatus::Live, all[1].status);
}

#[test]
fn null_protocol_completes_empty() {
    let mut q = QueueState::new();
    let row = q.create(plain_job(), "a:1", 0).unwrap();
    let entry = q.fetch_optional("a:1", 0).unwrap();
    let job = q.get_by_id(row.id).unwrap();
    job_complete(
        &mut q,
        entry,
        &job.meta,
        &job.schedule_id,
        Ok(irisqo::result::JobResult::empty()),
        "a:1",
        0,
    );
    let res = q.results_get_by_id(row.id).unwrap();
    assert_eq!(row.id, res.id);
    assert!(matches!(res.meta.result, JobResultType::Null));
    assert_eq!(None, res.body);
}

#[test]
fn external_id_lookup() {
    let mut q = QueueState::new();
    let mut job = plain_job();
    job.external_id = Some("key-1".into());
    let row = q.create(job, "a:1", 0).unwrap();
    let found = q.get_id_by_external_id("key-1").unwrap();
    assert_eq!(row.id, found.id);
    assert_eq!(Some("key-1".to_string()), found.external_id);
    assert!(q.get_id_by_external_id("key-2").is_none());
}

#[test]
fn schedules_listing_and_delete() {
    let mut q = QueueState::new();
    let mut job = plain_job();
    job.schedule = Some(irisqo::schedule::JobSchedule::Interval { interval: 60 });
    let row = q.create(job, "a:1", 0).unwrap();
    let sid = row.schedule_id.unwrap();

    let all = q.schedules_get_all(10, 0);
    assert_eq!(1, all.len());
    assert_eq!(sid, all[0].schedule_id);
    assert_eq!("60", all[0].schedule);
    assert_eq!(Some(row.id), all[0].next_id);
    assert!(q.schedules_get_all(10, 1).is_empty());

    assert_eq!(1, q.schedules_delete(&sid));
    assert_eq!(0, q.schedules_delete(&sid));
    assert!(q.schedules_get_by_id(&sid).is_none());
}

#[test]
fn history_paging() {
    let mut q = QueueState::new();
    let row = q.create(plain_job(), "a:1", 0).unwrap();
    let other = q.create(plain_job(), "a:1", 0).unwrap();
    let entry = q.fetch_optional("a:1", 1).unwrap();
    assert_eq!(row.id, entry.id);
    q.unlock(row.id, "a:1", 2);

    let all = q.get_history_by_id(row.id, 10, 0);
    assert_eq!(
        vec![
            HistoryStatus::Enqueued,
            HistoryStatus::Assigned,
            HistoryStatus::Retried
        ],
        all.iter().map(|h| h.status).collect::<Vec<_>>()
    );
    let page = q.get_history_by_id(row.id, 1, 1);
    assert_eq!(1, page.len());
    assert_eq!(HistoryStatus::Assigned, page[0].status);
    let only_other = q.get_history_by_id(other.id, 10, 0);
    assert_eq!(1, only_other.len());
}

#[test]
fn client_error_is_retried_then_failed() {
    let mut q = QueueState::new();
    let mut job = plain_job();
    job.meta.retry = JobRetry::Immediate { retry_count: 1 };
    let row = q.create(job, "a:1", 0).unwrap();

    let entry = q.fetch_optional("a:1", 0).unwrap();
    let jrow = q.get_by_id(row.id).unwrap();
    let outcome = classify_outcome(RunOutcome::Response {
        status_code: 404,
        version: irisqo::result::HttpVersion::Http11,
        headers: None,
        body: b"missing".to_vec(),
    });
    assert!(outcome.is_err());
    job_complete(&mut q, entry, &jrow.meta, &jrow.schedule_id, outcome, "a:1", 0);
    // Immediate policy: the lease was re-opened.
    let entry = q.fetch_optional("a:1", 0).unwrap();
    assert_eq!(1, entry.retry);
    let outcome = classify_outcome(RunOutcome::Response {
        status_code: 404,
        version: irisqo::result::HttpVersion::Http11,
        headers: None,
        body: b"missing".to_vec(),
    });
    job_complete(&mut q, entry, &jrow.meta, &jrow.schedule_id, outcome, "a:1", 0);
    // Exhausted: the 404 response itself is persisted as failed.
    assert_eq!(1, q.processed.len());
    assert_eq!(
        irisqo::result::ProcessedStatus::Failed,
        q.processed[0].status
    );
    assert_eq!(Some(b"missing".to_vec()), q.processed[0].body);
}

#[test]
fn transport_error_message_is_persisted() {
    let mut q = QueueState::new();
    let row = q.create(plain_job(), "a:1", 0).unwrap();
    let entry = q.fetch_optional("a:1", 0).unwrap();
    let jrow = q.get_by_id(row.id).unwrap();
    job_complete(
        &mut q,
        entry,
        &jrow.meta,
        &jrow.schedule_id,
        classify_outcome(RunOutcome::TransportFailed),
        "a:1",
        0,
    );
    match &q.processed[0].meta.result {
        JobResultType::Error { error } => assert_eq!("http transport error", error),
        other => panic!("unexpected result kind {other:?}"),
    }
}

#[test]
fn enqueue_scheduled_skips_future_rows() {
    let mut q = QueueState::new();
    let mut early = plain_job();
    early.at = Some(10);
    let mut late = plain_job();
    late.at = Some(100);
    let e = q.create(early, "a:1", 0).unwrap();
    let _l = q.create(late, "a:1", 0).unwrap();

    assert_eq!(0, q.enqueue_scheduled("a:1", 5));
    assert_eq!(1, q.enqueue_scheduled("a:1", 10));
    assert_eq!(1, q.enqueued.len());
    assert_eq!(e.id, q.enqueued[0].id);
    assert_eq!(1, q.scheduled.len());
}
