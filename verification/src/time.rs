//! Calendar plumbing around the outside time-zone and clock crates.
//!
//! Dates travel through the library as day numbers in the proleptic
//! Gregorian calendar, with January 1 of year 1 as day 1 — the same count
//! chrono's `num_days_from_ce` uses. The time zone type is opaque here; the
//! library only carries it from the configuration to the clock call.

use vstd::prelude::*;

verus! {

#[verifier::external_type_specification]
#[verifier::external_body]
pub struct ExTz(chrono_tz::Tz);

/// Relies on chrono-tz's `FromStr` impl for `Tz`: parses an IANA time-zone
/// name, `None` when the name is unknown.
#[verifier::external_body]
pub(crate) fn parse_timezone(name: &str) -> (r: Option<chrono_tz::Tz>) {
    name.parse::<chrono_tz::Tz>().ok()
}

/// Relies on chrono-tz's `Tz::UTC` constant.
#[verifier::external_body]
pub(crate) fn utc_timezone() -> (r: chrono_tz::Tz) {
    chrono_tz::Tz::UTC
}

/// Return the current date in the given timezone, as a day number.
///
/// Relies on chrono's `Utc::now`, `DateTime::with_timezone` and
/// `Datelike::num_days_from_ce`: the result counts days of the proleptic
/// Gregorian calendar with January 1 of year 1 as day 1. The value depends
/// on the system clock, so nothing more is promised of it.
#[verifier::external_body]
pub fn today_in(timezone: chrono_tz::Tz) -> (r: i32) {
    chrono::Datelike::num_days_from_ce(&chrono::Utc::now().with_timezone(&timezone).date_naive())
}

} // verus!
