//! Laws of generated schedules, proved from the generator's contract alone.
//!
//! Each lemma takes any schedule satisfying `valid_schedule` — which is what
//! `gen_schedule` ensures of a successful result — or a stuck-slot witness,
//! which it ensures of a failure, and derives one of the guarantees the rule
//! set is meant to enforce over the whole period: the shape and per-rule
//! invariants, and determinism on both the success and the error side.

use vstd::prelude::*;

use crate::rules::{
    abs_diff_int, all_rules_valid, DailyBalanceRule, MaxDayOffRule, MinDayOffRule,
    NoMorningAfterEveningRule, Rule,
};
use crate::scheduler::{
    assigned_shift, count_shift_range, day_off_count, greedy_stuck, lemma_count_range_bounds,
    lemma_prefix_agreement, lemma_stuck_not_below, lemma_valid_is_slot_ok_upto, order_index,
    pos_in_day, slot_ok, spec_ctx, valid_schedule, week_start,
};
use crate::types::{NewShiftAssignment, ShiftType, PERIOD_DAYS};

verus! {

/// Law: a schedule holds exactly one assignment per staff member per day of
/// the 28-day period.
pub proof fn lemma_schedule_length(
    r: Seq<NewShiftAssignment>,
    staff: Seq<u128>,
    begin: int,
    rules: Seq<Rule>,
)
    requires
        valid_schedule(r, staff, begin, rules),
    ensures
        r.len() == staff.len() * (PERIOD_DAYS as int),
{
    assert(staff.len() * (PERIOD_DAYS as int) == (staff.len() as int) * (PERIOD_DAYS as int));
}

/// Law: the generator is deterministic — the contract admits exactly one
/// schedule per input, so equal inputs yield identical output.
pub proof fn lemma_schedule_deterministic(
    r1: Seq<NewShiftAssignment>,
    r2: Seq<NewShiftAssignment>,
    staff: Seq<u128>,
    begin: int,
    rules: Seq<Rule>,
)
    requires
        valid_schedule(r1, staff, begin, rules),
        valid_schedule(r2, staff, begin, rules),
    ensures
        r1 == r2,
{
    if staff.len() == 0 {
        assert(r1 =~= r2);
    } else {
        let q = staff.len() * (PERIOD_DAYS as int);
        lemma_valid_is_slot_ok_upto(r1, staff, begin, rules, q);
        lemma_valid_is_slot_ok_upto(r2, staff, begin, rules, q);
        lemma_prefix_agreement(r1, r2, staff, begin, rules, q);
        assert(r1 =~= r2);
    }
}

/// Law: the generator is deterministic on the error side too — any two
/// stuck-slot witnesses for one input name the same day, the same position
/// and the same staff member, so the reported `NoValidShift` error is
/// unique. Together with `lemma_schedule_deterministic` and the success
/// condition (`Ok` exactly when the input is schedulable), equal inputs
/// yield identical outcomes.
pub proof fn lemma_stuck_slot_unique(
    part1: Seq<NewShiftAssignment>,
    day1: int,
    p1: int,
    sid1: u128,
    part2: Seq<NewShiftAssignment>,
    day2: int,
    p2: int,
    sid2: u128,
    staff: Seq<u128>,
    begin: int,
    rules: Seq<Rule>,
)
    requires
        staff.len() > 0,
        greedy_stuck(part1, staff, begin, rules, day1, p1, sid1),
        greedy_stuck(part2, staff, begin, rules, day2, p2, sid2),
    ensures
        day1 == day2,
        p1 == p2,
        sid1 == sid2,
{
    let n = staff.len() as int;
    let q1 = day1 * n + p1;
    let q2 = day2 * n + p2;
    lemma_stuck_not_below(part1, staff, begin, rules, day1, p1, sid1, part2, q2);
    lemma_stuck_not_below(part2, staff, begin, rules, day2, p2, sid2, part1, q1);
    assert(q1 == q2);
    assert((day1 + 1) * n == day1 * n + n) by (nonlinear_arith);
    assert((day2 + 1) * n == day2 * n + n) by (nonlinear_arith);
    assert(day1 == day2) by (nonlinear_arith)
        requires
            day1 * n + p1 == day2 * n + p2,
            0 <= p1 < n,
            0 <= p2 < n,
            day1 >= 0,
            day2 >= 0,
    ;
    assert(p1 == p2);
    assert(staff[pos_in_day(n, day1, p1)] == sid1);
    assert(staff[pos_in_day(n, day2, p2)] == sid2);
}

/// Law: when the no-morning-after-evening rule is configured, no staff
/// member works a morning shift on the day after an evening shift.
pub proof fn lemma_no_morning_after_evening(
    r: Seq<NewShiftAssignment>,
    staff: Seq<u128>,
    begin: int,
    rules: Seq<Rule>,
    i: int,
    d: int,
)
    requires
        valid_schedule(r, staff, begin, rules),
        rules.contains(Rule::NoMorningAfterEvening(NoMorningAfterEveningRule)),
        0 <= i < staff.len(),
        0 <= d < PERIOD_DAYS - 1,
    ensures
        !(assigned_shift(r, staff.len() as int, d, i) == ShiftType::Evening && assigned_shift(
            r,
            staff.len() as int,
            d + 1,
            i,
        ) == ShiftType::Morning),
{
    let n = staff.len() as int;
    let k = choose|k: int|
        0 <= k < rules.len() && rules[k] == Rule::NoMorningAfterEvening(NoMorningAfterEveningRule);
    assert(slot_ok(r, staff, begin, rules, d + 1, i));
    assert(all_rules_valid(rules, spec_ctx(r, n, d + 1, i), assigned_shift(r, n, d + 1, i)));
    assert(rules[k].spec_is_valid(spec_ctx(r, n, d + 1, i), assigned_shift(r, n, d + 1, i)));
    assert(spec_ctx(r, n, d + 1, i).previous_shift == Some(assigned_shift(r, n, d, i)));
}

/// Days `[7w, 7w + t)` of week `w` lie in the period and share the week
/// start `7w`.
proof fn lemma_in_week(w: int, t: int)
    requires
        0 <= w < 4,
        0 <= t < 7,
    ensures
        0 <= 7 * w + t < PERIOD_DAYS,
        week_start(7 * w + t) == 7 * w,
        (7 * w + t) % 7 == t,
        (7 * w + t) % 7 < 7,
{
    assert((7 * w + t) % 7 == t) by (nonlinear_arith)
        requires
            0 <= t < 7,
            0 <= w,
    ;
}

/// Law: when a maximum-day-off rule is configured, no staff member has more
/// than `max` days off in any week of the period. Stated for the first `t`
/// days of week `w`; `t == 7` covers the whole week.
pub proof fn lemma_week_day_off_max(
    r: Seq<NewShiftAssignment>,
    staff: Seq<u128>,
    begin: int,
    rules: Seq<Rule>,
    max: u8,
    i: int,
    w: int,
    t: int,
)
    requires
        valid_schedule(r, staff, begin, rules),
        rules.contains(Rule::MaxDayOff(MaxDayOffRule { max })),
        0 <= i < staff.len(),
        0 <= w < 4,
        0 <= t <= 7,
    ensures
        day_off_count(r, staff.len() as int, i, 7 * w, 7 * w + t) <= max,
    decreases t,
{
    let n = staff.len() as int;
    if t > 0 {
        lemma_week_day_off_max(r, staff, begin, rules, max, i, w, t - 1);
        let d = 7 * w + t - 1;
        lemma_in_week(w, t - 1);
        if assigned_shift(r, n, d, i) == ShiftType::DayOff {
            let k = choose|k: int|
                0 <= k < rules.len() && rules[k] == Rule::MaxDayOff(MaxDayOffRule { max });
            assert(slot_ok(r, staff, begin, rules, d, i));
            assert(all_rules_valid(rules, spec_ctx(r, n, d, i), assigned_shift(r, n, d, i)));
            assert(rules[k].spec_is_valid(spec_ctx(r, n, d, i), assigned_shift(r, n, d, i)));
            crate::scheduler::lemma_day_off_count_bounds(r, n, i, week_start(d), d);
            assert(spec_ctx(r, n, d, i).day_offs_this_week as int == day_off_count(
                r,
                n,
                i,
                7 * w,
                d,
            ));
            assert(day_off_count(r, n, i, 7 * w, d) < max);
        }
    }
}

/// Law: when a minimum-day-off rule with `min <= 7` is configured, every
/// staff member has at least `min` days off in every week of the period.
/// Stated with the strengthening that carries the induction: after the first
/// `t` days of week `w`, the days off already taken plus the days still to
/// come in the week cover `min`. At `t == 7` this is the bound itself.
pub proof fn lemma_week_day_off_min(
    r: Seq<NewShiftAssignment>,
    staff: Seq<u128>,
    begin: int,
    rules: Seq<Rule>,
    min: u8,
    i: int,
    w: int,
    t: int,
)
    requires
        valid_schedule(r, staff, begin, rules),
        rules.contains(Rule::MinDayOff(MinDayOffRule { min })),
        min <= 7,
        0 <= i < staff.len(),
        0 <= w < 4,
        0 <= t <= 7,
    ensures
        day_off_count(r, staff.len() as int, i, 7 * w, 7 * w + t) + (7 - t) >= min,
    decreases t,
{
    let n = staff.len() as int;
    if t > 0 {
        lemma_week_day_off_min(r, staff, begin, rules, min, i, w, t - 1);
        let d = 7 * w + t - 1;
        lemma_in_week(w, t - 1);
        if assigned_shift(r, n, d, i) != ShiftType::DayOff {
            let k = choose|k: int|
                0 <= k < rules.len() && rules[k] == Rule::MinDayOff(MinDayOffRule { min });
            assert(slot_ok(r, staff, begin, rules, d, i));
            assert(all_rules_valid(rules, spec_ctx(r, n, d, i), assigned_shift(r, n, d, i)));
            assert(rules[k].spec_is_valid(spec_ctx(r, n, d, i), assigned_shift(r, n, d, i)));
            crate::scheduler::lemma_day_off_count_bounds(r, n, i, week_start(d), d);
            assert(spec_ctx(r, n, d, i).day_offs_this_week as int == day_off_count(
                r,
                n,
                i,
                7 * w,
                d,
            ));
            assert(spec_ctx(r, n, d, i).days_remaining_in_week as int == 6 - (t - 1));
            assert(day_off_count(r, n, i, 7 * w, d) + (6 - (t - 1)) >= min);
        }
    }
}

/// Law: when a daily-balance rule is configured, on every day the numbers of
/// morning and evening shifts handed out across the whole staff differ by at
/// most `max_diff`. Stated over the first `p` staff processed that day;
/// `p == staff.len()` covers the whole day.
pub proof fn lemma_daily_balance(
    r: Seq<NewShiftAssignment>,
    staff: Seq<u128>,
    begin: int,
    rules: Seq<Rule>,
    max_diff: u8,
    d: int,
    p: int,
)
    requires
        valid_schedule(r, staff, begin, rules),
        rules.contains(Rule::DailyBalance(DailyBalanceRule { max_diff })),
        staff.len() * (PERIOD_DAYS as int) <= usize::MAX,
        0 <= d < PERIOD_DAYS,
        0 <= p <= staff.len(),
    ensures
        abs_diff_int(
            count_shift_range(r, ShiftType::Morning, d * staff.len(), d * staff.len() + p),
            count_shift_range(r, ShiftType::Evening, d * staff.len(), d * staff.len() + p),
        ) <= max_diff,
    decreases p,
{
    let n = staff.len() as int;
    if p > 0 {
        lemma_daily_balance(r, staff, begin, rules, max_diff, d, p - 1);
        let i = pos_in_day(n, d, p - 1);
        assert(0 <= i < n);
        assert(pos_in_day(n, d, i) == p - 1);
        assert(order_index(n, d, i) == d * n + (p - 1));
        let k = choose|k: int|
            0 <= k < rules.len() && rules[k] == Rule::DailyBalance(DailyBalanceRule { max_diff });
        assert(slot_ok(r, staff, begin, rules, d, i));
        assert(all_rules_valid(rules, spec_ctx(r, n, d, i), assigned_shift(r, n, d, i)));
        assert(rules[k].spec_is_valid(spec_ctx(r, n, d, i), assigned_shift(r, n, d, i)));
        lemma_count_range_bounds(r, ShiftType::Morning, d * n, d * n + (p - 1));
        lemma_count_range_bounds(r, ShiftType::Evening, d * n, d * n + (p - 1));
        assert(spec_ctx(r, n, d, i).morning_count as int == count_shift_range(
            r,
            ShiftType::Morning,
            d * n,
            d * n + (p - 1),
        ));
        assert(spec_ctx(r, n, d, i).evening_count as int == count_shift_range(
            r,
            ShiftType::Evening,
            d * n,
            d * n + (p - 1),
        ));
        assert(r[d * n + (p - 1)].shift_type == assigned_shift(r, n, d, i));
    }
}

} // verus!
