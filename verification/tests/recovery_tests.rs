use chrono::Datelike;
use scheduling_service::config::SchedulingConfig;
use scheduling_service::error::SchedulingServiceError;
use scheduling_service::job_state::PendingJob;
use scheduling_service::service::SchedulingService;
use scheduling_service::store::JobStore;
use scheduling_service::types::{JobStatus, NewShiftAssignment, ShiftType, Staff, StaffStatus};

fn monday() -> i32 {
    chrono::NaiveDate::from_ymd_opt(2026, 2, 16)
        .unwrap()
        .num_days_from_ce()
}

fn make_staff(id: u128) -> Staff {
    Staff {
        id,
        name: format!("Staff {id}"),
        email: format!("s{id}@example.com"),
        position: "Nurse".to_string(),
        status: StaffStatus::Active,
        created_at: 0,
        updated_at: 0,
    }
}

#[test]
fn crash_recovery_resets_stale_job_and_deletes_partial_assignments() {
    // Seed the store as a crash would leave it: a job stuck in Processing
    // with a partial set of assignments already written.
    let mut store = JobStore::new();
    let job = store.create_job(7, monday());
    store.update_status(job.id, JobStatus::Processing).unwrap();
    let partial = vec![
        NewShiftAssignment {
            staff_id: 1,
            date: monday(),
            shift_type: ShiftType::Morning,
        },
        NewShiftAssignment {
            staff_id: 1,
            date: monday() + 1,
            shift_type: ShiftType::Evening,
        },
    ];
    store.save_assignments(job.id, partial).unwrap();
    assert_eq!(store.get_assignments(job.id).len(), 2);

    // Restart: the service adopts the store and recovers.
    let mut svc = SchedulingService::with_store(store, SchedulingConfig::default()).unwrap();
    let requeued = svc.recover_stale_jobs().unwrap();
    assert_eq!(requeued, vec![job.id]);

    let reloaded = svc.get_status(job.id).unwrap();
    assert_eq!(reloaded.status, JobStatus::Pending);
    assert!(svc.store().get_assignments(job.id).is_empty());

    // A fresh processing attempt proceeds and completes.
    let pending = PendingJob::from_schedule_job(reloaded).unwrap();
    let processing = svc.start_processing(pending).unwrap();
    svc.finish_processing(processing, Ok(vec![make_staff(1)]))
        .unwrap();
    assert_eq!(svc.get_status(job.id).unwrap().status, JobStatus::Completed);
    assert_eq!(svc.store().get_assignments(job.id).len(), 28);
}

#[test]
fn recovery_requeues_waiting_jobs_after_stale_ones() {
    let mut store = JobStore::new();
    let stale = store.create_job(1, monday());
    store.update_status(stale.id, JobStatus::Processing).unwrap();
    let waiting = store.create_job(2, monday());
    store
        .update_status(waiting.id, JobStatus::Processing)
        .unwrap();
    store
        .update_status(waiting.id, JobStatus::WaitingForRetry)
        .unwrap();
    let done = store.create_job(3, monday());
    store.update_status(done.id, JobStatus::Processing).unwrap();
    store.update_status(done.id, JobStatus::Completed).unwrap();

    let mut svc = SchedulingService::with_store(store, SchedulingConfig::default()).unwrap();
    let requeued = svc.recover_stale_jobs().unwrap();
    assert_eq!(requeued, vec![stale.id, waiting.id]);

    assert_eq!(svc.get_status(stale.id).unwrap().status, JobStatus::Pending);
    assert_eq!(
        svc.get_status(waiting.id).unwrap().status,
        JobStatus::Pending
    );
    // Terminal jobs are untouched.
    assert_eq!(svc.get_status(done.id).unwrap().status, JobStatus::Completed);

    // Nothing is left in flight.
    assert!(svc
        .store()
        .find_by_status(JobStatus::Processing)
        .is_empty());
    assert!(svc
        .store()
        .find_by_status(JobStatus::WaitingForRetry)
        .is_empty());
}

#[test]
fn recovery_keeps_other_jobs_assignments() {
    let mut store = JobStore::new();
    let completed = store.create_job(1, monday());
    store
        .update_status(completed.id, JobStatus::Processing)
        .unwrap();
    store
        .save_assignments(
            completed.id,
            vec![NewShiftAssignment {
                staff_id: 5,
                date: monday(),
                shift_type: ShiftType::Morning,
            }],
        )
        .unwrap();
    store
        .update_status(completed.id, JobStatus::Completed)
        .unwrap();

    let stale = store.create_job(2, monday());
    store.update_status(stale.id, JobStatus::Processing).unwrap();
    store
        .save_assignments(
            stale.id,
            vec![NewShiftAssignment {
                staff_id: 6,
                date: monday(),
                shift_type: ShiftType::Evening,
            }],
        )
        .unwrap();

    let mut svc = SchedulingService::with_store(store, SchedulingConfig::default()).unwrap();
    svc.recover_stale_jobs().unwrap();

    assert_eq!(svc.store().get_assignments(completed.id).len(), 1);
    assert!(svc.store().get_assignments(stale.id).is_empty());
}

#[test]
fn update_status_of_unknown_job_is_not_found() {
    let mut store = JobStore::new();
    let output = store.update_status(999, JobStatus::Pending);
    assert!(matches!(output, Err(SchedulingServiceError::NotFound)));
}

#[test]
fn store_timestamps_advance_on_status_changes() {
    let mut store = JobStore::new();
    let job = store.create_job(1, monday());
    assert_eq!(job.created_at, job.updated_at);
    store.update_status(job.id, JobStatus::Processing).unwrap();
    let after_first = store.find_by_id(job.id).unwrap();
    assert!(after_first.updated_at > job.updated_at);
    assert_eq!(after_first.created_at, job.created_at);
    store.update_status(job.id, JobStatus::Completed).unwrap();
    let after_second = store.find_by_id(job.id).unwrap();
    assert!(after_second.updated_at > after_first.updated_at);
}

#[test]
fn find_by_status_returns_jobs_in_creation_order() {
    let mut store = JobStore::new();
    let first = store.create_job(1, monday());
    let second = store.create_job(2, monday());
    let third = store.create_job(3, monday());
    store
        .update_status(second.id, JobStatus::Processing)
        .unwrap();

    let pending = store.find_by_status(JobStatus::Pending);
    let pending_ids: Vec<u64> = pending.iter().map(|j| j.id).collect();
    assert_eq!(pending_ids, vec![first.id, third.id]);
    assert!(pending
        .windows(2)
        .all(|w| w[0].created_at <= w[1].created_at));
}

#[test]
fn get_assignments_sorts_by_staff_then_date() {
    let mut store = JobStore::new();
    let job = store.create_job(1, monday());
    // Saved deliberately out of result order.
    let rows = vec![
        NewShiftAssignment {
            staff_id: 2,
            date: monday() + 1,
            shift_type: ShiftType::Morning,
        },
        NewShiftAssignment {
            staff_id: 1,
            date: monday() + 1,
            shift_type: ShiftType::Evening,
        },
        NewShiftAssignment {
            staff_id: 2,
            date: monday(),
            shift_type: ShiftType::DayOff,
        },
        NewShiftAssignment {
            staff_id: 1,
            date: monday(),
            shift_type: ShiftType::Morning,
        },
    ];
    store.save_assignments(job.id, rows).unwrap();

    let sorted = store.get_assignments(job.id);
    let keys: Vec<(u128, i32)> = sorted.iter().map(|a| (a.staff_id, a.date)).collect();
    assert_eq!(
        keys,
        vec![
            (1, monday()),
            (1, monday() + 1),
            (2, monday()),
            (2, monday() + 1),
        ]
    );
}
