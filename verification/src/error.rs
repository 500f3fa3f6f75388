//! Error kinds visible at the scheduling service boundary.

use vstd::prelude::*;

verus! {

/// Failure of schedule generation: no candidate shift satisfied every rule
/// for the named staff member on the named day (0-based within the period).
#[derive(Clone, Copy, Debug, PartialEq, Eq, Structural)]
pub enum SchedulingError {
    NoValidShift { staff_id: u128, day: usize },
}

/// Application-level errors of the scheduling service. Each kind maps to one
/// HTTP status code at the service boundary.
#[derive(Clone, Copy, Debug, PartialEq, Eq, Structural)]
pub enum SchedulingServiceError {
    /// Requested resource was not found.
    NotFound,
    /// Client sent an invalid request.
    BadRequest,
    /// Unexpected internal failure, including scheduler infeasibility.
    Internal,
    /// Persistence failure.
    Database,
    /// Data service returned a non-success response or a malformed body.
    DataService,
    /// Data service was unreachable after all retries.
    DataServiceUnavailable,
    /// The circuit breaker is open; data service calls are being fast-failed.
    CircuitOpen,
}

/// Errors from validating the scheduling configuration.
#[derive(Clone, Copy, Debug, PartialEq, Eq, Structural)]
pub enum ConfigError {
    /// The configured day-off bounds are contradictory or out of range.
    Invalid,
}

} // verus!
