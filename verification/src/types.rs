//! Core data model: staff, jobs, shifts and the job lifecycle.
//!
//! Calendar dates are carried as day numbers in the proleptic Gregorian
//! calendar, with January 1 of year 1 as day 1 (the count that the rest of
//! the crate calls a "day number"). Day 1 is a Monday, so a day number `d`
//! with `d >= 1` falls on a Monday exactly when `d % 7 == 1`.

use vstd::prelude::*;

verus! {

/// Length of one scheduling period, in days (four weeks).
pub const PERIOD_DAYS: usize = 28;

/// Days per week, the window over which weekly rules reset.
pub const DAYS_PER_WEEK: usize = 7;

/// Lifecycle status of a staff member in the external catalog.
#[derive(Clone, Copy, Debug, PartialEq, Eq, Structural)]
pub enum StaffStatus {
    Active,
    Inactive,
}

/// Lifecycle status of a schedule job.
#[derive(Clone, Copy, Debug, PartialEq, Eq, Structural)]
pub enum JobStatus {
    Pending,
    Processing,
    Completed,
    Failed,
    WaitingForRetry,
}

/// One of the three shift kinds a staff member can be assigned on a day.
#[derive(Clone, Copy, Debug, PartialEq, Eq, Structural)]
pub enum ShiftType {
    Morning,
    Evening,
    DayOff,
}

/// A staff member as delivered by the data service.
#[derive(Clone, Debug)]
pub struct Staff {
    pub id: u128,
    pub name: String,
    pub email: String,
    pub position: String,
    pub status: StaffStatus,
    pub created_at: u64,
    pub updated_at: u64,
}

/// A durable record of one schedule-generation request.
///
/// `created_at` and `updated_at` are logical timestamps drawn from the job
/// store's clock; `updated_at` advances on every status change.
#[derive(Clone, Copy, Debug, PartialEq, Eq, Structural)]
pub struct ScheduleJob {
    pub id: u64,
    pub staff_group_id: u128,
    pub period_begin_date: i32,
    pub status: JobStatus,
    pub created_at: u64,
    pub updated_at: u64,
}

/// A persisted shift assignment row.
#[derive(Clone, Copy, Debug, PartialEq, Eq, Structural)]
pub struct ShiftAssignment {
    pub id: u64,
    pub job_id: u64,
    pub staff_id: u128,
    pub date: i32,
    pub shift_type: ShiftType,
}

/// A shift assignment produced by the generator, before it has a
/// store-assigned id.
#[derive(Clone, Copy, Debug, PartialEq, Eq, Structural)]
pub struct NewShiftAssignment {
    pub staff_id: u128,
    pub date: i32,
    pub shift_type: ShiftType,
}

/// The composite returned for a completed job: the job's identity plus all
/// of its assignments.
#[derive(Clone, Debug)]
pub struct ScheduleResult {
    pub schedule_id: u64,
    pub period_begin_date: i32,
    pub staff_group_id: u128,
    pub assignments: Vec<ShiftAssignment>,
}

/// The legal transitions of the job lifecycle. No others exist.
pub open spec fn legal_transition(from: JobStatus, to: JobStatus) -> bool {
    ||| (from == JobStatus::Pending && to == JobStatus::Processing)
    ||| (from == JobStatus::Processing && to == JobStatus::Completed)
    ||| (from == JobStatus::Processing && to == JobStatus::Failed)
    ||| (from == JobStatus::Processing && to == JobStatus::WaitingForRetry)
    ||| (from == JobStatus::WaitingForRetry && to == JobStatus::Pending)
}

/// Whether a day number falls on a Monday. Day 1 (January 1, year 1) is a
/// Monday, and Mondays recur every seven days in both directions.
pub open spec fn spec_is_monday(day: int) -> bool {
    day % 7 == 1
}

/// Runtime check that a day number falls on a Monday, total over all `i32`
/// values (day numbers of real dates are positive, but nothing here needs
/// that).
pub fn is_monday(day: i32) -> (r: bool)
    ensures
        r == spec_is_monday(day as int),
{
    let m = day % 7;
    let mm = if m < 0 { m + 7 } else { m };
    mm == 1
}

} // verus!
