use chrono::Datelike;
use scheduling_service::job_state::PendingJob;
use scheduling_service::types::{JobStatus, ScheduleJob};

fn monday_day_number() -> i32 {
    chrono::NaiveDate::from_ymd_opt(2026, 2, 16)
        .unwrap()
        .num_days_from_ce()
}

fn make_job(status: JobStatus) -> ScheduleJob {
    ScheduleJob {
        id: 7,
        staff_group_id: uuid::Uuid::new_v4().as_u128(),
        period_begin_date: monday_day_number(),
        status,
        created_at: 1,
        updated_at: 1,
    }
}

#[test]
fn pending_from_pending_job_succeeds() {
    let job = make_job(JobStatus::Pending);
    assert!(PendingJob::from_schedule_job(job).is_some());
}

#[test]
fn pending_from_non_pending_job_returns_none() {
    for status in [
        JobStatus::Processing,
        JobStatus::Completed,
        JobStatus::Failed,
        JobStatus::WaitingForRetry,
    ] {
        let job = make_job(status);
        assert!(PendingJob::from_schedule_job(job).is_none());
    }
}

#[test]
fn pending_to_processing_transition() {
    let job = make_job(JobStatus::Pending);
    let job_id = job.id;
    let pending = PendingJob::from_schedule_job(job).unwrap();

    let (processing, id, status) = pending.start_processing();
    assert_eq!(id, job_id);
    assert_eq!(status, JobStatus::Processing);
    assert_eq!(processing.id(), job_id);
}

#[test]
fn processing_to_completed_transition() {
    let job = make_job(JobStatus::Pending);
    let job_id = job.id;
    let pending = PendingJob::from_schedule_job(job).unwrap();
    let (processing, _, _) = pending.start_processing();

    let (completed, id, status) = processing.complete();
    assert_eq!(id, job_id);
    assert_eq!(status, JobStatus::Completed);

    let inner = completed.into_inner();
    assert_eq!(inner.status, JobStatus::Completed);
}

#[test]
fn processing_to_failed_transition() {
    let job = make_job(JobStatus::Pending);
    let job_id = job.id;
    let pending = PendingJob::from_schedule_job(job).unwrap();
    let (processing, _, _) = pending.start_processing();

    let (failed, id, status) = processing.fail();
    assert_eq!(id, job_id);
    assert_eq!(status, JobStatus::Failed);

    let inner = failed.into_inner();
    assert_eq!(inner.status, JobStatus::Failed);
}

#[test]
fn processing_to_waiting_for_retry_transition() {
    let job = make_job(JobStatus::Pending);
    let job_id = job.id;
    let pending = PendingJob::from_schedule_job(job).unwrap();
    let (processing, _, _) = pending.start_processing();

    let (waiting, id, status) = processing.wait_for_retry();
    assert_eq!(id, job_id);
    assert_eq!(status, JobStatus::WaitingForRetry);
    assert_eq!(waiting.id(), job_id);

    let inner = waiting.into_inner();
    assert_eq!(inner.status, JobStatus::WaitingForRetry);
}

#[test]
fn waiting_for_retry_to_pending_transition() {
    let job = make_job(JobStatus::Pending);
    let job_id = job.id;
    let pending = PendingJob::from_schedule_job(job).unwrap();
    let (processing, _, _) = pending.start_processing();
    let (waiting, _, _) = processing.wait_for_retry();

    let (new_pending, id, status) = waiting.into_pending();
    assert_eq!(id, job_id);
    assert_eq!(status, JobStatus::Pending);
    assert_eq!(new_pending.id(), job_id);
}
