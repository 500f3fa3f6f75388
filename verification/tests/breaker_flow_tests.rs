use chrono::Datelike;
use scheduling_service::circuit_breaker::{CircuitBreaker, CircuitBreakerConfig, CircuitState};
use scheduling_service::config::SchedulingConfig;
use scheduling_service::error::SchedulingServiceError;
use scheduling_service::fetch::{next_fetch_step, process_probe, AttemptError, FetchStep};
use scheduling_service::job_state::PendingJob;
use scheduling_service::service::SchedulingService;
use scheduling_service::types::{JobStatus, Staff, StaffStatus};

fn monday() -> i32 {
    chrono::NaiveDate::from_ymd_opt(2026, 2, 16)
        .unwrap()
        .num_days_from_ce()
}

fn make_breaker(threshold: u32) -> CircuitBreaker {
    CircuitBreaker::new(CircuitBreakerConfig {
        failure_threshold: threshold,
        cooldown_secs: 100,
    })
}

fn make_staff(id: u128) -> Staff {
    Staff {
        id,
        name: format!("Staff {id}"),
        email: format!("s{id}@example.com"),
        position: "Nurse".to_string(),
        status: StaffStatus::Active,
        created_at: 0,
        updated_at: 0,
    }
}

#[test]
fn retry_policy_backs_off_then_gives_up_on_transport_failures() {
    assert_eq!(
        next_fetch_step(1, AttemptError::Transport),
        FetchStep::RetryAfterMs(100)
    );
    assert_eq!(
        next_fetch_step(2, AttemptError::Transport),
        FetchStep::RetryAfterMs(200)
    );
    assert_eq!(
        next_fetch_step(3, AttemptError::Transport),
        FetchStep::GiveUp(SchedulingServiceError::DataServiceUnavailable)
    );
}

#[test]
fn retry_policy_fails_fast_on_answered_errors() {
    assert_eq!(
        next_fetch_step(1, AttemptError::BadStatus),
        FetchStep::Fail(SchedulingServiceError::DataService)
    );
    assert_eq!(
        next_fetch_step(1, AttemptError::BadBody),
        FetchStep::Fail(SchedulingServiceError::DataService)
    );
}

#[test]
fn breaker_trip_fast_fails_third_submission_without_network() {
    // With threshold = 2, two consecutive transport failures open the
    // breaker; the next background task must be fast-failed before any
    // network call and land in WaitingForRetry.
    let mut breaker = make_breaker(2);
    let mut svc = SchedulingService::new(SchedulingConfig::default());

    // Two failed calls through the breaker-wrapped client.
    for t in 0..2u64 {
        assert!(breaker.can_execute(t));
        breaker.record_failure(t);
    }
    assert_eq!(breaker.state(), CircuitState::Open);

    // Third submission: the breaker refuses the call, so the worker never
    // reaches the network and records the fast-fail outcome directly.
    let job = svc.submit_schedule(1, monday(), monday()).unwrap();
    let pending = PendingJob::from_schedule_job(job).unwrap();
    let processing = svc.start_processing(pending).unwrap();
    assert!(!breaker.can_execute(10));
    let output = svc.finish_processing(processing, Err(SchedulingServiceError::CircuitOpen));
    assert!(matches!(output, Err(SchedulingServiceError::CircuitOpen)));
    assert_eq!(
        svc.get_status(job.id).unwrap().status,
        JobStatus::WaitingForRetry
    );
}

#[test]
fn successful_probe_force_closes_and_requests_one_sweep() {
    let mut breaker = make_breaker(2);
    breaker.record_failure(0);
    breaker.record_failure(1);
    assert_eq!(breaker.state(), CircuitState::Open);

    // Recovery probe: the breaker closes and one sweep is requested.
    let sweep = process_probe(&mut breaker, true, 5, false);
    assert!(sweep);
    assert_eq!(breaker.state(), CircuitState::Closed);
    assert_eq!(breaker.consecutive_failures, 0);

    // A second success with the breaker already closed requests nothing.
    let sweep_again = process_probe(&mut breaker, true, 6, false);
    assert!(!sweep_again);
}

#[test]
fn probe_success_during_running_sweep_does_not_request_another() {
    let mut breaker = make_breaker(2);
    breaker.record_failure(0);
    breaker.record_failure(1);
    let sweep = process_probe(&mut breaker, true, 5, true);
    assert!(!sweep);
    assert_eq!(breaker.state(), CircuitState::Closed);
}

#[test]
fn failed_probe_counts_toward_the_threshold() {
    let mut breaker = make_breaker(2);
    assert!(!process_probe(&mut breaker, false, 0, false));
    assert_eq!(breaker.state(), CircuitState::Closed);
    assert!(!process_probe(&mut breaker, false, 1, false));
    // The probe failures alone opened the breaker: the documented
    // mid-recovery trip.
    assert_eq!(breaker.state(), CircuitState::Open);
}

#[test]
fn outage_recovery_sequence_through_probe_and_sweep() {
    // The full recovery story: a job parks on an outage which opens the
    // breaker, a probe closes it, the sweep re-queues, the retry completes.
    let mut breaker = make_breaker(1);
    let mut svc = SchedulingService::new(SchedulingConfig::default());

    let job = svc.submit_schedule(9, monday(), monday()).unwrap();
    let pending = PendingJob::from_schedule_job(job).unwrap();
    let processing = svc.start_processing(pending).unwrap();
    breaker.record_failure(0);
    let output = svc.finish_processing(
        processing,
        Err(SchedulingServiceError::DataServiceUnavailable),
    );
    assert!(output.is_err());
    assert_eq!(
        svc.get_status(job.id).unwrap().status,
        JobStatus::WaitingForRetry
    );

    let sweep = process_probe(&mut breaker, true, 1, false);
    assert!(sweep);
    let requeued = svc.retry_waiting_jobs().unwrap();
    assert_eq!(requeued, vec![job.id]);

    let reloaded = svc.get_status(job.id).unwrap();
    let pending = PendingJob::from_schedule_job(reloaded).unwrap();
    let processing = svc.start_processing(pending).unwrap();
    svc.finish_processing(processing, Ok(vec![make_staff(1)]))
        .unwrap();
    assert_eq!(svc.get_status(job.id).unwrap().status, JobStatus::Completed);
}
