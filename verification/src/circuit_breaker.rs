//! Circuit breaker guarding calls to the data service.
//!
//! The breaker counts consecutive failures; at the configured threshold it
//! opens and fast-fails callers, and after a cooldown it admits one trial
//! call (half-open). Time enters only through the `now_ms` arguments, so the
//! whole state machine is plain verified logic; callers pass a reading of a
//! monotonic clock in milliseconds.

use vstd::prelude::*;

verus! {

/// States of the circuit breaker state machine.
///
/// Transitions: `Closed` -> `Open` (on failure threshold) -> `HalfOpen`
/// (after cooldown) -> `Closed` (on success).
#[derive(Clone, Copy, Debug, PartialEq, Eq, Structural)]
pub enum CircuitState {
    Closed,
    Open,
    HalfOpen,
}

/// Configuration for the circuit breaker.
#[derive(Clone, Copy, Debug, PartialEq, Eq, Structural)]
pub struct CircuitBreakerConfig {
    pub failure_threshold: u32,
    pub cooldown_secs: u64,
}

impl Default for CircuitBreakerConfig {
    /// Five consecutive failures open the breaker; it cools down for 30 s.
    fn default() -> (r: Self)
        ensures
            r.failure_threshold == 5,
            r.cooldown_secs == 30,
    {
        CircuitBreakerConfig { failure_threshold: 5, cooldown_secs: 30 }
    }
}

impl CircuitBreakerConfig {
    /// The cooldown in milliseconds as the contracts see it.
    pub open spec fn spec_cooldown_ms(&self) -> u64 {
        if self.cooldown_secs > u64::MAX as int / 1000 {
            u64::MAX
        } else {
            (self.cooldown_secs * 1000) as u64
        }
    }

    /// The cooldown expressed in milliseconds, saturating at `u64::MAX`.
    pub fn cooldown_duration(&self) -> (r: u64)
        ensures
            r == self.spec_cooldown_ms(),
    {
        if self.cooldown_secs > u64::MAX / 1000 {
            u64::MAX
        } else {
            self.cooldown_secs * 1000
        }
    }
}

/// Tracks consecutive failures against a downstream service and prevents
/// calls while the failure threshold is exceeded, giving the service time to
/// recover.
#[derive(Clone, Copy, Debug, PartialEq, Eq, Structural)]
pub struct CircuitBreaker {
    pub state: CircuitState,
    pub consecutive_failures: u32,
    pub last_failure_time: Option<u64>,
    pub config: CircuitBreakerConfig,
}

impl CircuitBreaker {
    /// Creates a breaker in `Closed` state with zero failures.
    pub fn new(config: CircuitBreakerConfig) -> (r: Self)
        ensures
            r.state == CircuitState::Closed,
            r.consecutive_failures == 0,
            r.last_failure_time is None,
            r.config == config,
    {
        CircuitBreaker {
            state: CircuitState::Closed,
            consecutive_failures: 0,
            last_failure_time: None,
            config,
        }
    }

    pub fn state(&self) -> (r: CircuitState)
        ensures
            r == self.state,
    {
        self.state
    }

    /// Milliseconds elapsed from `from` to `now_ms`, zero when the clock
    /// reading is older than the stamp.
    pub open spec fn spec_elapsed(from: u64, now_ms: u64) -> u64 {
        if now_ms >= from {
            (now_ms - from) as u64
        } else {
            0
        }
    }

    /// Whether a call attempted at `now_ms` must be admitted.
    pub open spec fn spec_can_execute(&self, now_ms: u64) -> bool {
        match self.state {
            CircuitState::Closed => true,
            CircuitState::HalfOpen => true,
            CircuitState::Open => match self.last_failure_time {
                Some(t) => Self::spec_elapsed(t, now_ms) >= self.config.spec_cooldown_ms(),
                None => false,
            },
        }
    }

    /// Returns `true` if a call should be attempted at time `now_ms`.
    ///
    /// When `Open` and the cooldown has elapsed since the last failure,
    /// transitions to `HalfOpen` and admits the call; otherwise the state,
    /// counter and stamp are unchanged.
    pub fn can_execute(&mut self, now_ms: u64) -> (r: bool)
        ensures
            r == old(self).spec_can_execute(now_ms),
            final(self).state == (if old(self).state == CircuitState::Open && r {
                CircuitState::HalfOpen
            } else {
                old(self).state
            }),
            final(self).consecutive_failures == old(self).consecutive_failures,
            final(self).last_failure_time == old(self).last_failure_time,
            final(self).config == old(self).config,
    {
        match self.state {
            CircuitState::Closed => true,
            CircuitState::Open => {
                match self.last_failure_time {
                    Some(last_failure) => {
                        let elapsed = if now_ms >= last_failure {
                            now_ms - last_failure
                        } else {
                            0
                        };
                        if elapsed >= self.config.cooldown_duration() {
                            self.state = CircuitState::HalfOpen;
                            true
                        } else {
                            false
                        }
                    }
                    None => false,
                }
            }
            CircuitState::HalfOpen => true,
        }
    }

    /// Records a successful call, resetting the breaker to `Closed` with a
    /// zero failure counter.
    pub fn record_success(&mut self)
        ensures
            final(self).state == CircuitState::Closed,
            final(self).consecutive_failures == 0,
            final(self).last_failure_time is None,
            final(self).config == old(self).config,
    {
        self.consecutive_failures = 0;
        self.last_failure_time = None;
        self.state = CircuitState::Closed;
    }

    /// Records a failed call at time `now_ms`. The counter advances
    /// (saturating) and the failure time is stamped. A `Closed` breaker opens
    /// when the counter reaches the threshold; a `HalfOpen` breaker re-opens
    /// immediately; an `Open` breaker stays open.
    pub fn record_failure(&mut self, now_ms: u64)
        ensures
            final(self).consecutive_failures == (if old(self).consecutive_failures == u32::MAX {
                u32::MAX
            } else {
                (old(self).consecutive_failures + 1) as u32
            }),
            final(self).last_failure_time == Some(now_ms),
            final(self).state == (match old(self).state {
                CircuitState::Closed => {
                    if final(self).consecutive_failures >= old(self).config.failure_threshold {
                        CircuitState::Open
                    } else {
                        CircuitState::Closed
                    }
                },
                CircuitState::HalfOpen => CircuitState::Open,
                CircuitState::Open => CircuitState::Open,
            }),
            final(self).config == old(self).config,
    {
        if self.consecutive_failures < u32::MAX {
            self.consecutive_failures = self.consecutive_failures + 1;
        }
        self.last_failure_time = Some(now_ms);

        match self.state {
            CircuitState::Closed => {
                if self.consecutive_failures >= self.config.failure_threshold {
                    self.state = CircuitState::Open;
                }
            }
            CircuitState::HalfOpen => {
                self.state = CircuitState::Open;
            }
            CircuitState::Open => {}
        }
    }

    /// Forcibly resets the breaker to `Closed` with zero failures, used by
    /// the health check when the downstream service is confirmed healthy.
    pub fn force_close(&mut self)
        ensures
            final(self).state == CircuitState::Closed,
            final(self).consecutive_failures == 0,
            final(self).last_failure_time is None,
            final(self).config == old(self).config,
    {
        self.consecutive_failures = 0;
        self.last_failure_time = None;
        self.state = CircuitState::Closed;
    }
}

/// Law: once the breaker stands open, a call attempted within the cooldown of
/// the stamped failure is refused outright, so the wrapped client is never
/// reached.
pub proof fn lemma_open_breaker_fast_fails(b: CircuitBreaker, now_ms: u64)
    requires
        b.state == CircuitState::Open,
        b.last_failure_time matches Some(t)
            && CircuitBreaker::spec_elapsed(t, now_ms) < b.config.spec_cooldown_ms(),
    ensures
        !b.spec_can_execute(now_ms),
{
}

/// Law: a breaker that `force_close` (or `record_success`) has reset admits
/// the immediately following call, whatever the time, and its failure counter
/// is zero.
pub proof fn lemma_closed_breaker_admits_calls(b: CircuitBreaker, now_ms: u64)
    requires
        b.state == CircuitState::Closed,
    ensures
        b.spec_can_execute(now_ms),
{
}

} // verus!
