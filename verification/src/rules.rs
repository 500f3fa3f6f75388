//! Scheduling rules: pure predicates over a candidate shift.
//!
//! A rule inspects the context of one (staff, day) slot and admits or rejects
//! a candidate shift. Rules are composed as an ordered list; a candidate is
//! feasible exactly when every rule in the list admits it.

use vstd::prelude::*;

use crate::types::ShiftType;

verus! {

/// Snapshot of scheduling state passed to rules when evaluating a candidate
/// shift for one staff member on one day.
#[derive(Clone, Copy, Debug)]
pub struct AssignmentContext {
    /// The shift (if any) this staff member worked on the prior day.
    pub previous_shift: Option<ShiftType>,
    /// DayOffs this staff member already has in the current week window.
    pub day_offs_this_week: u8,
    /// Future days of the current week, excluding today.
    pub days_remaining_in_week: u8,
    /// Morning shifts already committed for today across all staff.
    pub morning_count: usize,
    /// Evening shifts already committed for today across all staff.
    pub evening_count: usize,
}

/// A pluggable scheduling constraint. Rules are evaluated in order; a
/// candidate shift is only assigned if all rules return `true`.
pub trait SchedulingRule: Sized {
    /// What the rule admits, as the contracts see it.
    spec fn spec_is_valid(&self, ctx: AssignmentContext, candidate: ShiftType) -> bool;

    /// Whether the rule admits `candidate` under `ctx`.
    fn is_valid(&self, ctx: &AssignmentContext, candidate: &ShiftType) -> (r: bool)
        ensures
            r == self.spec_is_valid(*ctx, *candidate),
    ;

    /// The rule's identifier, as the contracts see it.
    spec fn spec_name(&self) -> Seq<char>;

    /// A short stable identifier for the rule.
    fn name(&self) -> (r: &'static str)
        ensures
            r@ == self.spec_name(),
    ;
}

/// Absolute difference, for the daily-balance bound.
pub open spec fn abs_diff_int(a: int, b: int) -> int {
    if a >= b {
        a - b
    } else {
        b - a
    }
}

/// Prevents assigning a morning shift immediately following an evening shift.
#[derive(Clone, Copy, Debug, PartialEq, Eq, Structural)]
pub struct NoMorningAfterEveningRule;

impl SchedulingRule for NoMorningAfterEveningRule {
    open spec fn spec_is_valid(&self, ctx: AssignmentContext, candidate: ShiftType) -> bool {
        !(ctx.previous_shift == Some(ShiftType::Evening) && candidate == ShiftType::Morning)
    }

    fn is_valid(&self, ctx: &AssignmentContext, candidate: &ShiftType) -> (r: bool)
        ensures
            r == self.spec_is_valid(*ctx, *candidate),
    {
        !(ctx.previous_shift == Some(ShiftType::Evening) && *candidate == ShiftType::Morning)
    }

    open spec fn spec_name(&self) -> Seq<char> {
        "no_morning_after_evening"@
    }

    fn name(&self) -> (r: &'static str)
        ensures
            r@ == self.spec_name(),
    {
        "no_morning_after_evening"
    }
}

/// Limits the number of days off per week per staff member.
#[derive(Clone, Copy, Debug, PartialEq, Eq, Structural)]
pub struct MaxDayOffRule {
    pub max: u8,
}

impl SchedulingRule for MaxDayOffRule {
    open spec fn spec_is_valid(&self, ctx: AssignmentContext, candidate: ShiftType) -> bool {
        candidate == ShiftType::DayOff ==> ctx.day_offs_this_week < self.max
    }

    fn is_valid(&self, ctx: &AssignmentContext, candidate: &ShiftType) -> (r: bool)
        ensures
            r == self.spec_is_valid(*ctx, *candidate),
    {
        if *candidate != ShiftType::DayOff {
            return true;
        }
        ctx.day_offs_this_week < self.max
    }

    open spec fn spec_name(&self) -> Seq<char> {
        "max_day_off"@
    }

    fn name(&self) -> (r: &'static str)
        ensures
            r@ == self.spec_name(),
    {
        "max_day_off"
    }
}

/// Ensures each staff member gets at least a minimum number of days off per
/// week: a working shift is rejected when the remaining days of the week can
/// no longer satisfy the minimum.
#[derive(Clone, Copy, Debug, PartialEq, Eq, Structural)]
pub struct MinDayOffRule {
    pub min: u8,
}

impl SchedulingRule for MinDayOffRule {
    open spec fn spec_is_valid(&self, ctx: AssignmentContext, candidate: ShiftType) -> bool {
        candidate != ShiftType::DayOff
            ==> ctx.day_offs_this_week + ctx.days_remaining_in_week >= self.min
    }

    fn is_valid(&self, ctx: &AssignmentContext, candidate: &ShiftType) -> (r: bool)
        ensures
            r == self.spec_is_valid(*ctx, *candidate),
    {
        if *candidate == ShiftType::DayOff {
            return true;
        }
        ctx.day_offs_this_week as usize + ctx.days_remaining_in_week as usize >= self.min as usize
    }

    open spec fn spec_name(&self) -> Seq<char> {
        "min_day_off"@
    }

    fn name(&self) -> (r: &'static str)
        ensures
            r@ == self.spec_name(),
    {
        "min_day_off"
    }
}

/// Keeps the daily counts of morning and evening shifts within a maximum
/// difference.
#[derive(Clone, Copy, Debug, PartialEq, Eq, Structural)]
pub struct DailyBalanceRule {
    pub max_diff: u8,
}

impl SchedulingRule for DailyBalanceRule {
    open spec fn spec_is_valid(&self, ctx: AssignmentContext, candidate: ShiftType) -> bool {
        match candidate {
            ShiftType::Morning => abs_diff_int(
                ctx.morning_count + 1,
                ctx.evening_count as int,
            ) <= self.max_diff,
            ShiftType::Evening => abs_diff_int(
                ctx.morning_count as int,
                ctx.evening_count + 1,
            ) <= self.max_diff,
            ShiftType::DayOff => true,
        }
    }

    fn is_valid(&self, ctx: &AssignmentContext, candidate: &ShiftType) -> (r: bool)
        ensures
            r == self.spec_is_valid(*ctx, *candidate),
    {
        let m: u128 = ctx.morning_count as u128;
        let e: u128 = ctx.evening_count as u128;
        let (m2, e2): (u128, u128) = match *candidate {
            ShiftType::Morning => (m + 1, e),
            ShiftType::Evening => (m, e + 1),
            ShiftType::DayOff => {
                return true;
            },
        };
        let diff: u128 = if m2 >= e2 {
            m2 - e2
        } else {
            e2 - m2
        };
        diff <= self.max_diff as u128
    }

    open spec fn spec_name(&self) -> Seq<char> {
        "daily_balance"@
    }

    fn name(&self) -> (r: &'static str)
        ensures
            r@ == self.spec_name(),
    {
        "daily_balance"
    }
}

/// One configured rule. The set of rule shapes is closed, so the composed
/// list is a vector of this enum and dispatch is a match.
#[derive(Clone, Copy, Debug, PartialEq, Eq, Structural)]
pub enum Rule {
    NoMorningAfterEvening(NoMorningAfterEveningRule),
    MaxDayOff(MaxDayOffRule),
    MinDayOff(MinDayOffRule),
    DailyBalance(DailyBalanceRule),
}

impl Rule {
    /// What the rule admits, as the contracts see it.
    pub open spec fn spec_is_valid(&self, ctx: AssignmentContext, candidate: ShiftType) -> bool {
        match self {
            Rule::NoMorningAfterEvening(r) => r.spec_is_valid(ctx, candidate),
            Rule::MaxDayOff(r) => r.spec_is_valid(ctx, candidate),
            Rule::MinDayOff(r) => r.spec_is_valid(ctx, candidate),
            Rule::DailyBalance(r) => r.spec_is_valid(ctx, candidate),
        }
    }

    /// Whether the rule admits `candidate` under `ctx`.
    pub fn is_valid(&self, ctx: &AssignmentContext, candidate: &ShiftType) -> (r: bool)
        ensures
            r == self.spec_is_valid(*ctx, *candidate),
    {
        match self {
            Rule::NoMorningAfterEvening(r) => r.is_valid(ctx, candidate),
            Rule::MaxDayOff(r) => r.is_valid(ctx, candidate),
            Rule::MinDayOff(r) => r.is_valid(ctx, candidate),
            Rule::DailyBalance(r) => r.is_valid(ctx, candidate),
        }
    }

    /// The wrapped rule's identifier, as the contracts see it.
    pub open spec fn spec_name(&self) -> Seq<char> {
        match self {
            Rule::NoMorningAfterEvening(r) => r.spec_name(),
            Rule::MaxDayOff(r) => r.spec_name(),
            Rule::MinDayOff(r) => r.spec_name(),
            Rule::DailyBalance(r) => r.spec_name(),
        }
    }

    /// The wrapped rule's identifier.
    pub fn name(&self) -> (r: &'static str)
        ensures
            r@ == self.spec_name(),
    {
        match self {
            Rule::NoMorningAfterEvening(r) => r.name(),
            Rule::MaxDayOff(r) => r.name(),
            Rule::MinDayOff(r) => r.name(),
            Rule::DailyBalance(r) => r.name(),
        }
    }
}

/// Whether every rule in the list admits `candidate` under `ctx`.
pub open spec fn all_rules_valid(
    rules: Seq<Rule>,
    ctx: AssignmentContext,
    candidate: ShiftType,
) -> bool {
    forall|k: int| 0 <= k < rules.len() ==> #[trigger] rules[k].spec_is_valid(ctx, candidate)
}

/// Evaluates the whole rule list on one candidate.
pub fn rules_allow(rules: &Vec<Rule>, ctx: &AssignmentContext, candidate: &ShiftType) -> (r: bool)
    ensures
        r == all_rules_valid(rules@, *ctx, *candidate),
{
    let mut k: usize = 0;
    while k < rules.len()
        invariant
            0 <= k <= rules@.len(),
            forall|j: int| 0 <= j < k ==> #[trigger] rules@[j].spec_is_valid(*ctx, *candidate),
        decreases rules@.len() - k,
    {
        if !rules[k].is_valid(ctx, candidate) {
            return false;
        }
        k = k + 1;
    }
    true
}

} // verus!
