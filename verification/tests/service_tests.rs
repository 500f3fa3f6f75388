use chrono::Datelike;
use scheduling_service::config::SchedulingConfig;
use scheduling_service::error::SchedulingServiceError;
use scheduling_service::job_state::PendingJob;
use scheduling_service::service::SchedulingService;
use scheduling_service::types::{JobStatus, ScheduleJob, ShiftType, Staff, StaffStatus};

fn day_number(y: i32, m: u32, d: u32) -> i32 {
    chrono::NaiveDate::from_ymd_opt(y, m, d)
        .unwrap()
        .num_days_from_ce()
}

fn monday() -> i32 {
    day_number(2026, 2, 16)
}

fn make_service() -> SchedulingService {
    SchedulingService::new(SchedulingConfig::default())
}

fn make_staff(id: u128, active: bool) -> Staff {
    Staff {
        id,
        name: format!("Staff {id}"),
        email: format!("s{id}@example.com"),
        position: "Nurse".to_string(),
        status: if active {
            StaffStatus::Active
        } else {
            StaffStatus::Inactive
        },
        created_at: 0,
        updated_at: 0,
    }
}

fn submit(svc: &mut SchedulingService, period: i32, today: i32) -> ScheduleJob {
    svc.submit_schedule(uuid::Uuid::new_v4().as_u128(), period, today)
        .expect("submission should be accepted")
}

/// Drives one job through the background-task flow with the given fetch
/// outcome, as the binary's worker does.
fn drive(
    svc: &mut SchedulingService,
    job: ScheduleJob,
    fetch: Result<Vec<Staff>, SchedulingServiceError>,
) -> Result<(), SchedulingServiceError> {
    let pending = PendingJob::from_schedule_job(job).expect("job should be pending");
    let processing = svc.start_processing(pending)?;
    svc.finish_processing(processing, fetch)
}

#[test]
fn submit_schedule_rejects_non_monday() {
    let mut svc = make_service();
    // 2026-02-17 is Tuesday
    let tuesday = day_number(2026, 2, 17);
    let output = svc.submit_schedule(1, tuesday, tuesday);
    assert!(matches!(output, Err(SchedulingServiceError::BadRequest)));
    assert_eq!(svc.store().job_count(), 0);
}

#[test]
fn submit_schedule_rejects_past_date() {
    let mut svc = make_service();
    // 2000-01-03 is a Monday far in the past relative to the caller's today.
    let old_monday = day_number(2000, 1, 3);
    let output = svc.submit_schedule(1, old_monday, monday());
    assert!(matches!(output, Err(SchedulingServiceError::BadRequest)));
    assert_eq!(svc.store().job_count(), 0);
}

#[test]
fn submit_schedule_accepts_today_itself() {
    let mut svc = make_service();
    let job = submit(&mut svc, monday(), monday());
    assert_eq!(job.status, JobStatus::Pending);
    assert_eq!(job.period_begin_date, monday());
}

#[test]
fn get_status_not_found() {
    let svc = make_service();
    let output = svc.get_status(12345);
    assert!(matches!(output, Err(SchedulingServiceError::NotFound)));
}

#[test]
fn get_result_not_found() {
    let svc = make_service();
    let output = svc.get_result(12345);
    assert!(matches!(output, Err(SchedulingServiceError::NotFound)));
}

#[test]
fn get_result_not_completed() {
    let mut svc = make_service();
    let job = submit(&mut svc, monday(), monday());
    let output = svc.get_result(job.id);
    assert!(matches!(output, Err(SchedulingServiceError::BadRequest)));
}

#[test]
fn get_result_returns_schedule_result_with_metadata() {
    let mut svc = make_service();
    let job = submit(&mut svc, monday(), monday());
    let staff_group_id = job.staff_group_id;
    drive(&mut svc, job, Ok(vec![make_staff(1, true)])).unwrap();

    let output = svc.get_result(job.id).unwrap();
    assert_eq!(output.schedule_id, job.id);
    assert_eq!(output.staff_group_id, staff_group_id);
    assert_eq!(output.period_begin_date, monday());
    assert_eq!(output.assignments.len(), 28);
    assert!(output.assignments.iter().all(|a| a.job_id == job.id));
}

#[test]
fn process_job_happy_path() {
    let mut svc = make_service();
    let job = submit(&mut svc, monday(), monday());

    let pending = PendingJob::from_schedule_job(job).unwrap();
    let processing = svc.start_processing(pending).unwrap();
    assert_eq!(svc.get_status(job.id).unwrap().status, JobStatus::Processing);

    let staff: Vec<Staff> = (1..=4).map(|i| make_staff(i, true)).collect();
    svc.finish_processing(processing, Ok(staff)).unwrap();
    assert_eq!(svc.get_status(job.id).unwrap().status, JobStatus::Completed);

    // 4 staff * 28 days = 112 assignments, 28 for each staff member.
    let result = svc.get_result(job.id).unwrap();
    assert_eq!(result.assignments.len(), 4 * 28);
    for sid in 1..=4u128 {
        let count = result
            .assignments
            .iter()
            .filter(|a| a.staff_id == sid)
            .count();
        assert_eq!(count, 28, "Staff {sid} should have 28 assignments");
    }
}

#[test]
fn process_job_data_service_error_marks_failed() {
    let mut svc = make_service();
    let job = submit(&mut svc, monday(), monday());

    let output = drive(&mut svc, job, Err(SchedulingServiceError::DataService));
    assert!(matches!(output, Err(SchedulingServiceError::DataService)));
    assert_eq!(svc.get_status(job.id).unwrap().status, JobStatus::Failed);
}

#[test]
fn process_job_filters_inactive_staff() {
    let mut svc = make_service();
    let job = submit(&mut svc, monday(), monday());

    let staff = vec![make_staff(10, true), make_staff(20, false)];
    drive(&mut svc, job, Ok(staff)).unwrap();

    // Only the active staff member should have assignments.
    let result = svc.get_result(job.id).unwrap();
    assert_eq!(result.assignments.len(), 28);
    assert!(result.assignments.iter().all(|a| a.staff_id == 10));
}

#[test]
fn process_job_circuit_open_marks_waiting_for_retry() {
    let mut svc = make_service();
    let job = submit(&mut svc, monday(), monday());

    let output = drive(&mut svc, job, Err(SchedulingServiceError::CircuitOpen));
    assert!(matches!(output, Err(SchedulingServiceError::CircuitOpen)));
    assert_eq!(
        svc.get_status(job.id).unwrap().status,
        JobStatus::WaitingForRetry
    );
}

#[test]
fn process_job_data_service_unavailable_marks_waiting_for_retry() {
    let mut svc = make_service();
    let job = submit(&mut svc, monday(), monday());

    let output = drive(
        &mut svc,
        job,
        Err(SchedulingServiceError::DataServiceUnavailable),
    );
    assert!(matches!(
        output,
        Err(SchedulingServiceError::DataServiceUnavailable)
    ));
    assert_eq!(
        svc.get_status(job.id).unwrap().status,
        JobStatus::WaitingForRetry
    );
}

#[test]
fn process_job_infeasible_rules_marks_failed() {
    // A zero daily balance with a capped day-off budget cannot fill 28 days.
    let config = SchedulingConfig {
        min_day_off_per_week: None,
        max_day_off_per_week: Some(2),
        no_morning_after_evening: false,
        max_daily_shift_diff: Some(0),
        ..SchedulingConfig::default()
    };
    let mut svc = SchedulingService::new(config);
    let job = submit(&mut svc, monday(), monday());

    let output = drive(&mut svc, job, Ok(vec![make_staff(1, true)]));
    assert!(matches!(output, Err(SchedulingServiceError::Internal)));
    assert_eq!(svc.get_status(job.id).unwrap().status, JobStatus::Failed);
}

#[test]
fn empty_roster_completes_with_zero_assignments() {
    let mut svc = make_service();
    let job = submit(&mut svc, monday(), monday());

    drive(&mut svc, job, Ok(Vec::new())).unwrap();
    assert_eq!(svc.get_status(job.id).unwrap().status, JobStatus::Completed);
    let result = svc.get_result(job.id).unwrap();
    assert!(result.assignments.is_empty());
}

#[test]
fn inactive_only_roster_completes_with_zero_assignments() {
    let mut svc = make_service();
    let job = submit(&mut svc, monday(), monday());

    let staff = vec![make_staff(1, false), make_staff(2, false)];
    drive(&mut svc, job, Ok(staff)).unwrap();
    assert_eq!(svc.get_status(job.id).unwrap().status, JobStatus::Completed);
    let result = svc.get_result(job.id).unwrap();
    assert!(result.assignments.is_empty());
}

#[test]
fn two_submissions_yield_distinct_ids() {
    let mut svc = make_service();
    let group = 42u128;
    let job1 = svc.submit_schedule(group, monday(), monday()).unwrap();
    let job2 = svc.submit_schedule(group, monday(), monday()).unwrap();
    assert_ne!(job1.id, job2.id);
    assert_eq!(svc.store().job_count(), 2);
}

#[test]
fn get_result_is_idempotent() {
    let mut svc = make_service();
    let job = submit(&mut svc, monday(), monday());
    let staff: Vec<Staff> = (1..=4).map(|i| make_staff(i, true)).collect();
    drive(&mut svc, job, Ok(staff)).unwrap();

    let first = svc.get_result(job.id).unwrap();
    let second = svc.get_result(job.id).unwrap();
    assert_eq!(first.schedule_id, second.schedule_id);
    assert_eq!(first.period_begin_date, second.period_begin_date);
    assert_eq!(first.staff_group_id, second.staff_group_id);
    assert_eq!(first.assignments, second.assignments);
}

#[test]
fn get_result_orders_assignments_by_staff_then_date() {
    let mut svc = make_service();
    let job = submit(&mut svc, monday(), monday());
    // Staff delivered in descending id order; the result must not keep it.
    let staff = vec![
        make_staff(40, true),
        make_staff(30, true),
        make_staff(20, true),
        make_staff(10, true),
    ];
    drive(&mut svc, job, Ok(staff)).unwrap();

    let result = svc.get_result(job.id).unwrap();
    for pair in result.assignments.windows(2) {
        let earlier = (&pair[0].staff_id, pair[0].date);
        let later = (&pair[1].staff_id, pair[1].date);
        assert!(earlier <= later, "assignments out of (staff, date) order");
    }
}

#[test]
fn happy_path_schedule_satisfies_all_rule_invariants() {
    let mut svc = make_service();
    let job = submit(&mut svc, monday(), monday());
    let staff: Vec<Staff> = (1..=4).map(|i| make_staff(i, true)).collect();
    drive(&mut svc, job, Ok(staff)).unwrap();

    let result = svc.get_result(job.id).unwrap();
    assert_eq!(result.assignments.len(), 4 * 28);

    for sid in 1..=4u128 {
        let mine: Vec<_> = result
            .assignments
            .iter()
            .filter(|a| a.staff_id == sid)
            .collect();
        // No morning immediately after an evening.
        for pair in mine.windows(2) {
            assert!(
                !(pair[0].shift_type == ShiftType::Evening
                    && pair[1].shift_type == ShiftType::Morning)
            );
        }
        // Weekly day-off bounds: between 1 and 2 per week.
        for week in 0..4 {
            let start = monday() + 7 * week;
            let day_offs = mine
                .iter()
                .filter(|a| {
                    a.date >= start && a.date < start + 7 && a.shift_type == ShiftType::DayOff
                })
                .count();
            assert!((1..=2).contains(&day_offs));
        }
    }
    // Daily balance within 1.
    for day in 0..28 {
        let date = monday() + day;
        let morning = result
            .assignments
            .iter()
            .filter(|a| a.date == date && a.shift_type == ShiftType::Morning)
            .count();
        let evening = result
            .assignments
            .iter()
            .filter(|a| a.date == date && a.shift_type == ShiftType::Evening)
            .count();
        assert!(morning.abs_diff(evening) <= 1);
    }
}

#[test]
fn outage_then_recovery_completes_on_retry() {
    let mut svc = make_service();
    let job = submit(&mut svc, monday(), monday());

    // First processing attempt: the remote refuses connections.
    let output = drive(
        &mut svc,
        job,
        Err(SchedulingServiceError::DataServiceUnavailable),
    );
    assert!(output.is_err());
    assert_eq!(
        svc.get_status(job.id).unwrap().status,
        JobStatus::WaitingForRetry
    );

    // The data service comes back: the retry sweep re-queues the job.
    let requeued = svc.retry_waiting_jobs().unwrap();
    assert_eq!(requeued, vec![job.id]);
    let reloaded = svc.get_status(job.id).unwrap();
    assert_eq!(reloaded.status, JobStatus::Pending);

    // The retry completes.
    drive(&mut svc, reloaded, Ok(vec![make_staff(1, true)])).unwrap();
    assert_eq!(svc.get_status(job.id).unwrap().status, JobStatus::Completed);
    assert_eq!(svc.get_result(job.id).unwrap().assignments.len(), 28);
}
