//! Decision logic around the remote roster fetch.
//!
//! The network work itself lives outside the library; what is verified here
//! is the policy: how one attempt's outcome maps to the next action (retry
//! with exponential backoff, or a terminal error), and what a health-probe
//! result does to the circuit breaker.

use vstd::prelude::*;

use crate::circuit_breaker::{CircuitBreaker, CircuitState};
use crate::error::SchedulingServiceError;

verus! {

/// Maximum number of attempts for one roster fetch.
pub const MAX_RETRIES: u32 = 3;

/// How one fetch attempt ended, as the driver reports it.
#[derive(Clone, Copy, Debug, PartialEq, Eq, Structural)]
pub enum AttemptError {
    /// Connection refused, timeout, DNS failure, reset: transport level.
    Transport,
    /// The data service answered with a non-success status code.
    BadStatus,
    /// The data service answered success but the body carried no data.
    BadBody,
}

/// What the driver must do after a failed attempt.
#[derive(Clone, Copy, Debug, PartialEq, Eq, Structural)]
pub enum FetchStep {
    /// Sleep this many milliseconds, then attempt again.
    RetryAfterMs(u64),
    /// All attempts exhausted on transport failures.
    GiveUp(SchedulingServiceError),
    /// A response arrived but was unusable; no retry.
    Fail(SchedulingServiceError),
}

/// Backoff before the attempt after `attempt` (1-based): 100 ms, then
/// 200 ms.
pub open spec fn spec_backoff_ms(attempt: u32) -> u64 {
    if attempt == 1 {
        100
    } else {
        200
    }
}

/// The retry policy of the roster client: transport failures are retried
/// with exponential backoff until the attempts are exhausted, then surface
/// as `DataServiceUnavailable`; an answered but unusable response is a
/// terminal `DataService` error with no retry.
pub open spec fn spec_next_fetch_step(attempt: u32, err: AttemptError) -> FetchStep {
    match err {
        AttemptError::Transport => {
            if attempt < MAX_RETRIES {
                FetchStep::RetryAfterMs(spec_backoff_ms(attempt))
            } else {
                FetchStep::GiveUp(SchedulingServiceError::DataServiceUnavailable)
            }
        },
        AttemptError::BadStatus => FetchStep::Fail(SchedulingServiceError::DataService),
        AttemptError::BadBody => FetchStep::Fail(SchedulingServiceError::DataService),
    }
}

/// Decides what follows the failed attempt number `attempt` (1-based).
pub fn next_fetch_step(attempt: u32, err: AttemptError) -> (r: FetchStep)
    requires
        1 <= attempt <= MAX_RETRIES,
    ensures
        r == spec_next_fetch_step(attempt, err),
{
    match err {
        AttemptError::Transport => {
            if attempt < MAX_RETRIES {
                let backoff: u64 = if attempt == 1 {
                    100
                } else {
                    200
                };
                FetchStep::RetryAfterMs(backoff)
            } else {
                FetchStep::GiveUp(SchedulingServiceError::DataServiceUnavailable)
            }
        },
        AttemptError::BadStatus => FetchStep::Fail(SchedulingServiceError::DataService),
        AttemptError::BadBody => FetchStep::Fail(SchedulingServiceError::DataService),
    }
}

/// Applies one health-probe result to the breaker and says whether a retry
/// sweep of waiting jobs is due.
///
/// A successful probe force-closes the breaker; the sweep is due exactly
/// when the breaker had not been closed and no sweep is already running
/// (the caller holds that latch). A failed probe — transport error or
/// non-success status alike — records a single failure, which can open the
/// breaker mid-recovery; that is the documented behavior.
pub fn process_probe(breaker: &mut CircuitBreaker, probe_success: bool, now_ms: u64, retrying: bool)
    -> (sweep: bool)
    ensures
        probe_success ==> {
            &&& final(breaker).state == CircuitState::Closed
            &&& final(breaker).consecutive_failures == 0
            &&& final(breaker).last_failure_time is None
            &&& sweep == (old(breaker).state != CircuitState::Closed && !retrying)
        },
        !probe_success ==> {
            &&& !sweep
            &&& final(breaker).consecutive_failures == (if old(
                breaker,
            ).consecutive_failures == u32::MAX {
                u32::MAX
            } else {
                (old(breaker).consecutive_failures + 1) as u32
            })
            &&& final(breaker).last_failure_time == Some(now_ms)
        },
        final(breaker).config == old(breaker).config,
{
    if probe_success {
        let was_not_closed = breaker.state() != CircuitState::Closed;
        breaker.force_close();
        was_not_closed && !retrying
    } else {
        breaker.record_failure(now_ms);
        false
    }
}

} // verus!
