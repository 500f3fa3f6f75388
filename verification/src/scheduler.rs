//! The schedule generator: greedy day-by-day assignment driven by the rule
//! list.
//!
//! For each of the 28 days the staff list is walked in an order that
//! alternates forward/reverse with the day's parity, and for each staff
//! member the candidate shifts are tried in an order that also alternates,
//! with `DayOff` always last. The first candidate admitted by every rule is
//! committed. The contracts pin the output down completely: its shape (who is
//! assigned what day at which position), that every committed shift was
//! admitted by every rule under the context derived from the output itself,
//! and that every candidate preferred to the committed one was rejected —
//! which makes the output unique, hence the generator deterministic.

use vstd::prelude::*;

use crate::error::SchedulingError;
use crate::rules::{all_rules_valid, rules_allow, AssignmentContext, Rule};
use crate::types::{NewShiftAssignment, ShiftType, DAYS_PER_WEEK, PERIOD_DAYS};

verus! {

/// Position of staff index `i` in the processing order of day `d`: forward
/// on even days, reverse on odd days.
pub open spec fn pos_in_day(n: int, d: int, i: int) -> int {
    if d % 2 == 0 {
        i
    } else {
        n - 1 - i
    }
}

/// Index in the output sequence of the assignment made for staff index `i`
/// on day `d` (both 0-based).
pub open spec fn order_index(n: int, d: int, i: int) -> int {
    d * n + pos_in_day(n, d, i)
}

/// The shift committed for staff index `i` on day `d`.
pub open spec fn assigned_shift(r: Seq<NewShiftAssignment>, n: int, d: int, i: int) -> ShiftType {
    r[order_index(n, d, i)].shift_type
}

/// First day of the week that day `d` belongs to (weeks start at days
/// 0, 7, 14, 21 of the period).
pub open spec fn week_start(d: int) -> int {
    d - d % 7
}

/// The candidate shift tried at rank `j` on day `d`: morning first on even
/// days, evening first on odd days, a day off always last.
pub open spec fn candidate_shift(d: int, j: int) -> ShiftType {
    if j == 0 {
        if d % 2 == 0 {
            ShiftType::Morning
        } else {
            ShiftType::Evening
        }
    } else if j == 1 {
        if d % 2 == 0 {
            ShiftType::Evening
        } else {
            ShiftType::Morning
        }
    } else {
        ShiftType::DayOff
    }
}

/// Rank of shift `s` in day `d`'s candidate order.
pub open spec fn candidate_rank(d: int, s: ShiftType) -> int {
    if candidate_shift(d, 0) == s {
        0
    } else if candidate_shift(d, 1) == s {
        1
    } else {
        2
    }
}

/// Number of assignments with shift `s` among output positions `[from, to)`.
pub open spec fn count_shift_range(
    r: Seq<NewShiftAssignment>,
    s: ShiftType,
    from: int,
    to: int,
) -> int
    decreases to - from,
{
    if from >= to {
        0
    } else {
        count_shift_range(r, s, from, to - 1) + (if r[to - 1].shift_type == s {
            1int
        } else {
            0int
        })
    }
}

/// Number of days in `[from_day, to_day)` on which staff index `i` has a
/// day off.
pub open spec fn day_off_count(
    r: Seq<NewShiftAssignment>,
    n: int,
    i: int,
    from_day: int,
    to_day: int,
) -> int
    decreases to_day - from_day,
{
    if from_day >= to_day {
        0
    } else {
        day_off_count(r, n, i, from_day, to_day - 1) + (if assigned_shift(r, n, to_day - 1, i)
            == ShiftType::DayOff {
            1int
        } else {
            0int
        })
    }
}

/// The context under which the shift for staff index `i` on day `d` was
/// chosen, reconstructed from the output itself: the staff member's shift of
/// the prior day, the day offs already committed in the current week, and
/// the morning/evening tallies over the staff already processed on day `d`.
pub open spec fn spec_ctx(r: Seq<NewShiftAssignment>, n: int, d: int, i: int) -> AssignmentContext {
    AssignmentContext {
        previous_shift: if d == 0 {
            None
        } else {
            Some(assigned_shift(r, n, d - 1, i))
        },
        day_offs_this_week: day_off_count(r, n, i, week_start(d), d) as u8,
        days_remaining_in_week: (6 - d % 7) as u8,
        morning_count: count_shift_range(r, ShiftType::Morning, d * n, order_index(n, d, i)) as usize,
        evening_count: count_shift_range(r, ShiftType::Evening, d * n, order_index(n, d, i)) as usize,
    }
}

/// Everything the generator promises of the single slot (day `d`, staff
/// index `i`): the right staff id and date stand at the slot's position,
/// every rule admitted the committed shift under the slot's context, and
/// every candidate preferred to it was rejected by some rule.
pub open spec fn slot_ok(
    r: Seq<NewShiftAssignment>,
    staff: Seq<u128>,
    begin: int,
    rules: Seq<Rule>,
    d: int,
    i: int,
) -> bool {
    let n = staff.len() as int;
    &&& r[order_index(n, d, i)].staff_id == staff[i]
    &&& r[order_index(n, d, i)].date == begin + d
    &&& all_rules_valid(rules, spec_ctx(r, n, d, i), assigned_shift(r, n, d, i))
    &&& forall|j: int|
        0 <= j < candidate_rank(d, assigned_shift(r, n, d, i)) ==> !all_rules_valid(
            rules,
            spec_ctx(r, n, d, i),
            #[trigger] candidate_shift(d, j),
        )
}

/// A schedule the generator may return: one assignment per staff per day,
/// laid out day-major in the alternating order, each slot rule-abiding and
/// greedily first.
pub open spec fn valid_schedule(
    r: Seq<NewShiftAssignment>,
    staff: Seq<u128>,
    begin: int,
    rules: Seq<Rule>,
) -> bool {
    let n = staff.len() as int;
    &&& r.len() == n * (PERIOD_DAYS as int)
    &&& forall|d: int, i: int|
        0 <= d < PERIOD_DAYS && 0 <= i < n ==> #[trigger] slot_ok(r, staff, begin, rules, d, i)
}

pub proof fn lemma_count_range_bounds(r: Seq<NewShiftAssignment>, s: ShiftType, from: int, to: int)
    requires
        from <= to,
    ensures
        0 <= count_shift_range(r, s, from, to) <= to - from,
    decreases to - from,
{
    if from < to {
        lemma_count_range_bounds(r, s, from, to - 1);
    }
}

pub proof fn lemma_count_range_stable(
    r1: Seq<NewShiftAssignment>,
    r2: Seq<NewShiftAssignment>,
    s: ShiftType,
    from: int,
    to: int,
)
    requires
        from <= to,
        forall|k: int| from <= k < to ==> r1[k] == #[trigger] r2[k],
    ensures
        count_shift_range(r1, s, from, to) == count_shift_range(r2, s, from, to),
    decreases to - from,
{
    if from < to {
        lemma_count_range_stable(r1, r2, s, from, to - 1);
    }
}

pub proof fn lemma_day_off_count_bounds(
    r: Seq<NewShiftAssignment>,
    n: int,
    i: int,
    from_day: int,
    to_day: int,
)
    requires
        from_day <= to_day,
    ensures
        0 <= day_off_count(r, n, i, from_day, to_day) <= to_day - from_day,
    decreases to_day - from_day,
{
    if from_day < to_day {
        lemma_day_off_count_bounds(r, n, i, from_day, to_day - 1);
    }
}

pub proof fn lemma_day_off_count_stable(
    r1: Seq<NewShiftAssignment>,
    r2: Seq<NewShiftAssignment>,
    n: int,
    i: int,
    from_day: int,
    to_day: int,
)
    requires
        0 <= i < n,
        0 <= from_day <= to_day,
        forall|k: int| 0 <= k < to_day * n ==> r1[k] == #[trigger] r2[k],
    ensures
        day_off_count(r1, n, i, from_day, to_day) == day_off_count(r2, n, i, from_day, to_day),
    decreases to_day - from_day,
{
    if from_day < to_day {
        let d = to_day - 1;
        assert(d * n + n == to_day * n) by (nonlinear_arith)
            requires
                d == to_day - 1,
        ;
        assert(d * n >= 0) by (nonlinear_arith)
            requires
                d >= 0,
                n > 0,
        ;
        assert(0 <= pos_in_day(n, d, i) < n);
        assert(0 <= order_index(n, d, i) < to_day * n);
        assert(r1[order_index(n, d, i)] == r2[order_index(n, d, i)]);
        lemma_day_off_count_stable(r1, r2, n, i, from_day, to_day - 1);
    }
}

/// The context for slot (d, i) reads only output positions strictly below
/// `order_index(n, d, i)`, so it is unchanged by appending assignments.
pub proof fn lemma_ctx_stable(
    r1: Seq<NewShiftAssignment>,
    r2: Seq<NewShiftAssignment>,
    n: int,
    d: int,
    i: int,
)
    requires
        0 <= i < n,
        0 <= d,
        forall|k: int| 0 <= k < order_index(n, d, i) ==> r1[k] == #[trigger] r2[k],
    ensures
        spec_ctx(r1, n, d, i) == spec_ctx(r2, n, d, i),
{
    assert(d * n >= 0) by (nonlinear_arith)
        requires
            d >= 0,
            n > 0,
    ;
    assert(d * n <= order_index(n, d, i));
    if d > 0 {
        assert((d - 1) * n + n == d * n) by (nonlinear_arith);
        assert((d - 1) * n >= 0) by (nonlinear_arith)
            requires
                d >= 1,
                n > 0,
        ;
        assert(0 <= order_index(n, d - 1, i) < d * n);
        assert(r1[order_index(n, d - 1, i)] == r2[order_index(n, d - 1, i)]);
    }
    assert(0 <= week_start(d) <= d);
    lemma_day_off_count_stable(r1, r2, n, i, week_start(d), d);
    lemma_count_range_stable(r1, r2, ShiftType::Morning, d * n, order_index(n, d, i));
    lemma_count_range_stable(r1, r2, ShiftType::Evening, d * n, order_index(n, d, i));
}

/// Slot facts are about positions at most `order_index`, so they also
/// survive appending assignments.
pub proof fn lemma_slot_ok_stable(
    r1: Seq<NewShiftAssignment>,
    r2: Seq<NewShiftAssignment>,
    staff: Seq<u128>,
    begin: int,
    rules: Seq<Rule>,
    d: int,
    i: int,
)
    requires
        0 <= i < staff.len(),
        0 <= d,
        slot_ok(r1, staff, begin, rules, d, i),
        forall|k: int| 0 <= k <= order_index(staff.len() as int, d, i) ==> r1[k] == #[trigger] r2[k],
    ensures
        slot_ok(r2, staff, begin, rules, d, i),
{
    let n = staff.len() as int;
    lemma_ctx_stable(r1, r2, n, d, i);
    assert(r1[order_index(n, d, i)] == r2[order_index(n, d, i)]);
}

/// Whether any schedule at all satisfies the generator's contract for this
/// input. The generator succeeds exactly on these inputs (and on an empty
/// staff list, whose only schedule is empty).
pub open spec fn schedulable(staff: Seq<u128>, begin: int, rules: Seq<Rule>) -> bool {
    exists|s: Seq<NewShiftAssignment>| #[trigger] valid_schedule(s, staff, begin, rules)
}

/// `slot_ok` for the slot standing at output position `t`.
pub open spec fn pos_slot_ok(
    r: Seq<NewShiftAssignment>,
    staff: Seq<u128>,
    begin: int,
    rules: Seq<Rule>,
    t: int,
) -> bool {
    let n = staff.len() as int;
    slot_ok(r, staff, begin, rules, t / n, pos_in_day(n, t / n, t % n))
}

/// Every slot at a position below `q` is good: the shape of a partial
/// greedy run.
pub open spec fn slot_ok_upto(
    r: Seq<NewShiftAssignment>,
    staff: Seq<u128>,
    begin: int,
    rules: Seq<Rule>,
    q: int,
) -> bool {
    forall|t: int| 0 <= t < q ==> #[trigger] pos_slot_ok(r, staff, begin, rules, t)
}

/// A greedy run stuck at day `day`, position `p`: the first `day * n + p`
/// slots are committed and good, and for the staff member at position `p`
/// of day `day` every candidate shift is rejected by some rule under the
/// context the committed prefix induces.
pub open spec fn greedy_stuck(
    part: Seq<NewShiftAssignment>,
    staff: Seq<u128>,
    begin: int,
    rules: Seq<Rule>,
    day: int,
    p: int,
    staff_id: u128,
) -> bool {
    let n = staff.len() as int;
    &&& 0 <= day < PERIOD_DAYS
    &&& 0 <= p < n
    &&& part.len() == day * n + p
    &&& staff[pos_in_day(n, day, p)] == staff_id
    &&& slot_ok_upto(part, staff, begin, rules, day * n + p)
    &&& forall|j: int|
        0 <= j < 3 ==> !all_rules_valid(
            rules,
            spec_ctx(part, n, day, pos_in_day(n, day, p)),
            #[trigger] candidate_shift(day, j),
        )
}

/// What an infeasibility error certifies: the named day lies in the period,
/// the named staff member is on the roster, and some good committed prefix
/// is stuck at a slot of that day for that staff member — which, by
/// `lemma_stuck_implies_infeasible` and the stuck-slot uniqueness law, both
/// rules out any valid schedule and pins the reported slot.
pub open spec fn stuck_evidence(
    e: SchedulingError,
    staff: Seq<u128>,
    begin: int,
    rules: Seq<Rule>,
) -> bool {
    match e {
        SchedulingError::NoValidShift { staff_id, day } => {
            &&& day < PERIOD_DAYS
            &&& exists|i: int| 0 <= i < staff.len() && staff[i] == staff_id
            &&& exists|part: Seq<NewShiftAssignment>, pp: int| #[trigger] greedy_stuck(
                part,
                staff,
                begin,
                rules,
                day as int,
                pp,
                staff_id,
            )
        },
    }
}

proof fn lemma_position_decompose(t: int, n: int)
    requires
        n > 0,
        0 <= t,
    ensures
        t == (t / n) * n + (t % n),
        0 <= t % n < n,
        t / n >= 0,
{
    vstd::arithmetic::div_mod::lemma_fundamental_div_mod(t, n);
    vstd::arithmetic::div_mod::lemma_mod_bound(t, n);
    assert(t == (t / n) * n + (t % n)) by (nonlinear_arith)
        requires
            t == n * (t / n) + t % n,
    ;
    assert(t / n >= 0) by (nonlinear_arith)
        requires
            t == (t / n) * n + (t % n),
            0 <= t % n < n,
            t >= 0,
            n > 0,
    ;
}

/// A position within day `dd`'s block decomposes to day `dd` and its offset.
proof fn lemma_div_identity(t: int, n: int, dd: int)
    requires
        n > 0,
        dd >= 0,
        dd * n <= t,
        t < (dd + 1) * n,
    ensures
        t / n == dd,
        t % n == t - dd * n,
{
    assert(dd * n >= 0) by (nonlinear_arith)
        requires
            dd >= 0,
            n > 0,
    ;
    lemma_position_decompose(t, n);
    assert(t / n == dd) by (nonlinear_arith)
        requires
            t == (t / n) * n + (t % n),
            0 <= t % n < n,
            dd * n <= t,
            t < (dd + 1) * n,
            n > 0,
    ;
}

proof fn lemma_div_bound(t: int, n: int, b: int)
    requires
        n > 0,
        0 <= t,
        t < b * n,
    ensures
        0 <= t / n < b,
{
    lemma_position_decompose(t, n);
    assert(t / n < b) by (nonlinear_arith)
        requires
            t == (t / n) * n + (t % n),
            0 <= t % n < n,
            t < b * n,
            n > 0,
    ;
}

/// Each shift stands at its own rank in the day's candidate order.
pub proof fn lemma_candidate_rank_inverts(d: int, s: ShiftType)
    ensures
        candidate_shift(d, candidate_rank(d, s)) == s,
        0 <= candidate_rank(d, s) < 3,
{
}

/// A complete valid schedule has good slots at every position below `q`.
pub proof fn lemma_valid_is_slot_ok_upto(
    r: Seq<NewShiftAssignment>,
    staff: Seq<u128>,
    begin: int,
    rules: Seq<Rule>,
    q: int,
)
    requires
        staff.len() > 0,
        valid_schedule(r, staff, begin, rules),
        0 <= q <= staff.len() * (PERIOD_DAYS as int),
    ensures
        slot_ok_upto(r, staff, begin, rules, q),
{
    let n = staff.len() as int;
    assert forall|t: int| 0 <= t < q implies #[trigger] pos_slot_ok(r, staff, begin, rules, t) by {
        assert(t < (PERIOD_DAYS as int) * n) by (nonlinear_arith)
            requires
                t < q,
                q <= n * (PERIOD_DAYS as int),
        ;
        lemma_div_bound(t, n, PERIOD_DAYS as int);
        lemma_position_decompose(t, n);
        let d = t / n;
        let i = pos_in_day(n, d, t % n);
        assert(0 <= i < n);
        assert(slot_ok(r, staff, begin, rules, d, i));
    };
}

/// Two runs whose slots are all good below `q` agree below `q`: each slot's
/// context is determined by the slots before it, and the greedy clause
/// forces the same first admissible candidate on both.
pub proof fn lemma_prefix_agreement(
    r1: Seq<NewShiftAssignment>,
    r2: Seq<NewShiftAssignment>,
    staff: Seq<u128>,
    begin: int,
    rules: Seq<Rule>,
    q: int,
)
    requires
        staff.len() > 0,
        0 <= q,
        q <= r1.len(),
        q <= r2.len(),
        slot_ok_upto(r1, staff, begin, rules, q),
        slot_ok_upto(r2, staff, begin, rules, q),
    ensures
        forall|t: int| 0 <= t < q ==> r1[t] == r2[t],
    decreases q,
{
    let n = staff.len() as int;
    if q > 0 {
        lemma_prefix_agreement(r1, r2, staff, begin, rules, q - 1);
        let t = q - 1;
        lemma_position_decompose(t, n);
        let d = t / n;
        let p = t % n;
        let i = pos_in_day(n, d, p);
        assert(0 <= i < n);
        assert(pos_in_day(n, d, i) == p);
        assert(order_index(n, d, i) == t);
        assert(pos_slot_ok(r1, staff, begin, rules, t));
        assert(pos_slot_ok(r2, staff, begin, rules, t));
        lemma_ctx_stable(r1, r2, n, d, i);
        let ctx = spec_ctx(r1, n, d, i);
        let s1 = assigned_shift(r1, n, d, i);
        let s2 = assigned_shift(r2, n, d, i);
        lemma_candidate_rank_inverts(d, s1);
        lemma_candidate_rank_inverts(d, s2);
        if candidate_rank(d, s1) < candidate_rank(d, s2) {
            assert(!all_rules_valid(rules, spec_ctx(r2, n, d, i), candidate_shift(
                d,
                candidate_rank(d, s1),
            )));
            assert(all_rules_valid(rules, ctx, s1));
            assert(false);
        }
        if candidate_rank(d, s2) < candidate_rank(d, s1) {
            assert(!all_rules_valid(rules, spec_ctx(r1, n, d, i), candidate_shift(
                d,
                candidate_rank(d, s2),
            )));
            assert(all_rules_valid(rules, spec_ctx(r2, n, d, i), s2));
            assert(false);
        }
        assert(s1 == s2);
        assert(r1[t].staff_id == staff[i] && r2[t].staff_id == staff[i]);
        assert(r1[t].date == begin + d && r2[t].date == begin + d);
        assert(r1[t] == r2[t]);
    }
}

/// A run cannot be stuck strictly below the committed length of another
/// good run: the other run's slot at the stuck position would be a
/// candidate that every rule admits.
pub proof fn lemma_stuck_not_below(
    part: Seq<NewShiftAssignment>,
    staff: Seq<u128>,
    begin: int,
    rules: Seq<Rule>,
    day: int,
    p: int,
    staff_id: u128,
    r2: Seq<NewShiftAssignment>,
    q2: int,
)
    requires
        staff.len() > 0,
        greedy_stuck(part, staff, begin, rules, day, p, staff_id),
        slot_ok_upto(r2, staff, begin, rules, q2),
        q2 <= r2.len(),
    ensures
        day * staff.len() + p >= q2,
{
    let n = staff.len() as int;
    let q1 = day * n + p;
    if q1 < q2 {
        let i = pos_in_day(n, day, p);
        assert(0 <= i < n);
        assert(pos_in_day(n, day, i) == p);
        assert(order_index(n, day, i) == q1);
        lemma_prefix_agreement(part, r2, staff, begin, rules, q1);
        assert(pos_slot_ok(r2, staff, begin, rules, q1));
        assert((day + 1) * n == day * n + n) by (nonlinear_arith);
        lemma_div_identity(q1, n, day);
        assert(slot_ok(r2, staff, begin, rules, day, i));
        lemma_ctx_stable(part, r2, n, day, i);
        let sh = assigned_shift(r2, n, day, i);
        lemma_candidate_rank_inverts(day, sh);
        assert(all_rules_valid(rules, spec_ctx(r2, n, day, i), sh));
        assert(!all_rules_valid(rules, spec_ctx(part, n, day, i), candidate_shift(
            day,
            candidate_rank(day, sh),
        )));
        assert(false);
    }
}

/// Law: a stuck greedy run witnesses genuine infeasibility — no schedule at
/// all satisfies the rules for this input.
pub proof fn lemma_stuck_implies_infeasible(
    part: Seq<NewShiftAssignment>,
    staff: Seq<u128>,
    begin: int,
    rules: Seq<Rule>,
    day: int,
    p: int,
    staff_id: u128,
)
    requires
        staff.len() > 0,
        greedy_stuck(part, staff, begin, rules, day, p, staff_id),
    ensures
        !schedulable(staff, begin, rules),
{
    let n = staff.len() as int;
    let q = day * n + p;
    if schedulable(staff, begin, rules) {
        let s = choose|s: Seq<NewShiftAssignment>| #[trigger] valid_schedule(
            s,
            staff,
            begin,
            rules,
        );
        assert(q < n * (PERIOD_DAYS as int)) by (nonlinear_arith)
            requires
                0 <= day < PERIOD_DAYS,
                0 <= p < n,
                q == day * n + p,
        ;
        lemma_valid_is_slot_ok_upto(s, staff, begin, rules, n * (PERIOD_DAYS as int));
        lemma_stuck_not_below(part, staff, begin, rules, day, p, staff_id, s, n * (
        PERIOD_DAYS as int));
        assert(false);
    }
}

/// Working state of the generator: the output built so far plus the running
/// counters the rules consult.
struct GenState {
    assignments: Vec<NewShiftAssignment>,
    previous_shifts: Vec<Option<ShiftType>>,
    weekly_day_offs: Vec<u8>,
    morning_count: usize,
    evening_count: usize,
}

/// Invariant holding mid-day `d`, with the first `p` positions of the day
/// committed: lengths and tallies agree with the output, the per-staff
/// memories hold the right day's values, and every committed slot is good.
spec fn mid_day_inv(
    st: GenState,
    staff: Seq<u128>,
    begin: int,
    rules: Seq<Rule>,
    d: int,
    p: int,
) -> bool {
    let n = staff.len() as int;
    let r = st.assignments@;
    &&& r.len() == d * n + p
    &&& st.previous_shifts@.len() == n
    &&& st.weekly_day_offs@.len() == n
    &&& st.morning_count as int == count_shift_range(r, ShiftType::Morning, d * n, d * n + p)
    &&& st.evening_count as int == count_shift_range(r, ShiftType::Evening, d * n, d * n + p)
    &&& forall|i: int|
        0 <= i < n && pos_in_day(n, d, i) >= p ==> #[trigger] st.previous_shifts@[i] == (if d == 0 {
            None::<ShiftType>
        } else {
            Some(assigned_shift(r, n, d - 1, i))
        })
    &&& forall|i: int|
        0 <= i < n && pos_in_day(n, d, i) < p ==> #[trigger] st.previous_shifts@[i] == Some(
            assigned_shift(r, n, d, i),
        )
    &&& forall|i: int|
        0 <= i < n && pos_in_day(n, d, i) >= p ==> #[trigger] st.weekly_day_offs@[i] as int
            == day_off_count(r, n, i, week_start(d), d)
    &&& forall|i: int|
        0 <= i < n && pos_in_day(n, d, i) < p ==> #[trigger] st.weekly_day_offs@[i] as int
            == day_off_count(r, n, i, week_start(d), d + 1)
    &&& forall|d2: int, i: int|
        0 <= d2 < d && 0 <= i < n ==> #[trigger] slot_ok(r, staff, begin, rules, d2, i)
    &&& forall|i: int|
        0 <= i < n && pos_in_day(n, d, i) < p ==> #[trigger] slot_ok(r, staff, begin, rules, d, i)
}

/// Invariant at the start of day `d`: all earlier days committed, per-staff
/// memories pointing at day `d - 1`, and — except right at a week boundary,
/// where the reset is still owed — weekly tallies for the week of `d`.
spec fn day_start_inv(st: GenState, staff: Seq<u128>, begin: int, rules: Seq<Rule>, d: int) -> bool {
    let n = staff.len() as int;
    let r = st.assignments@;
    &&& r.len() == d * n
    &&& st.previous_shifts@.len() == n
    &&& st.weekly_day_offs@.len() == n
    &&& forall|i: int|
        0 <= i < n ==> #[trigger] st.previous_shifts@[i] == (if d == 0 {
            None::<ShiftType>
        } else {
            Some(assigned_shift(r, n, d - 1, i))
        })
    &&& (d % 7 == 0 || forall|i: int|
        0 <= i < n ==> #[trigger] st.weekly_day_offs@[i] as int == day_off_count(
            r,
            n,
            i,
            week_start(d),
            d,
        ))
    &&& forall|d2: int, i: int|
        0 <= d2 < d && 0 <= i < n ==> #[trigger] slot_ok(r, staff, begin, rules, d2, i)
}

/// The committed slots of a mid-day state are exactly the positions below
/// the state's length.
proof fn lemma_mid_day_slots_upto(
    st: GenState,
    staff: Seq<u128>,
    begin: int,
    rules: Seq<Rule>,
    d: int,
    p: int,
)
    requires
        staff.len() > 0,
        0 <= d,
        0 <= p <= staff.len(),
        mid_day_inv(st, staff, begin, rules, d, p),
    ensures
        slot_ok_upto(st.assignments@, staff, begin, rules, d * staff.len() + p),
{
    let n = staff.len() as int;
    let r = st.assignments@;
    assert(d * n >= 0) by (nonlinear_arith)
        requires
            d >= 0,
            n > 0,
    ;
    assert forall|t: int| 0 <= t < d * n + p implies #[trigger] pos_slot_ok(
        r,
        staff,
        begin,
        rules,
        t,
    ) by {
        lemma_position_decompose(t, n);
        let d2 = t / n;
        let p2 = t % n;
        let i = pos_in_day(n, d2, p2);
        assert(0 <= i < n);
        assert(pos_in_day(n, d2, i) == p2);
        if t < d * n {
            lemma_div_bound(t, n, d);
            assert(slot_ok(r, staff, begin, rules, d2, i));
        } else {
            assert((d + 1) * n == d * n + n) by (nonlinear_arith);
            lemma_div_identity(t, n, d);
            assert(d2 == d && p2 == t - d * n);
            assert(pos_in_day(n, d, i) < p);
            assert(slot_ok(r, staff, begin, rules, d, i));
        }
    };
}

/// When every candidate for the current slot is rejected, the run is stuck
/// in the sense of `greedy_stuck`, so the input is infeasible and the rule
/// list cannot be empty.
proof fn lemma_stuck_branch(
    st: GenState,
    staff: Seq<u128>,
    begin: int,
    rules: Seq<Rule>,
    day: int,
    p: int,
    i: int,
    staff_id: u128,
    ctx: AssignmentContext,
    c0: ShiftType,
    c1: ShiftType,
)
    requires
        staff.len() > 0,
        0 <= day < PERIOD_DAYS,
        0 <= p < staff.len(),
        mid_day_inv(st, staff, begin, rules, day, p),
        i == pos_in_day(staff.len() as int, day, p),
        staff[i] == staff_id,
        ctx == spec_ctx(st.assignments@, staff.len() as int, day, i),
        c0 == candidate_shift(day, 0),
        c1 == candidate_shift(day, 1),
        !all_rules_valid(rules, ctx, c0),
        !all_rules_valid(rules, ctx, c1),
        !all_rules_valid(rules, ctx, ShiftType::DayOff),
    ensures
        !schedulable(staff, begin, rules),
        exists|part: Seq<NewShiftAssignment>, pp: int| #[trigger] greedy_stuck(
            part,
            staff,
            begin,
            rules,
            day,
            pp,
            staff_id,
        ),
        rules.len() > 0,
{
    let n = staff.len() as int;
    let part = st.assignments@;
    if rules.len() == 0 {
        assert(all_rules_valid(rules, ctx, c0));
    }
    lemma_mid_day_slots_upto(st, staff, begin, rules, day, p);
    assert forall|j: int| 0 <= j < 3 implies !all_rules_valid(
        rules,
        spec_ctx(part, n, day, pos_in_day(n, day, p)),
        #[trigger] candidate_shift(day, j),
    ) by {
        assert(pos_in_day(n, day, p) == i);
        if j == 0 {
            assert(candidate_shift(day, 0) == c0);
        } else if j == 1 {
            assert(candidate_shift(day, 1) == c1);
        } else {
            assert(candidate_shift(day, j) == ShiftType::DayOff);
        }
    };
    assert(greedy_stuck(part, staff, begin, rules, day, p, staff_id));
    lemma_stuck_implies_infeasible(part, staff, begin, rules, day, p, staff_id);
}

/// Commits one slot: picks the first candidate of day `day` that every rule
/// admits for the staff member at position `p`, updates the tallies and
/// memories, and appends the assignment.
#[verifier::rlimit(100)]
#[verifier::spinoff_prover]
fn assign_slot(
    st: &mut GenState,
    staff_ids: &Vec<u128>,
    rules: &Vec<Rule>,
    day: usize,
    p: usize,
    date: i32,
    days_remaining_in_week: u8,
    c0: ShiftType,
    c1: ShiftType,
    Ghost(begin): Ghost<int>,
) -> (res: Result<(), SchedulingError>)
    requires
        staff_ids@.len() * (PERIOD_DAYS as int) <= usize::MAX,
        day < PERIOD_DAYS,
        p < staff_ids@.len(),
        mid_day_inv(*old(st), staff_ids@, begin, rules@, day as int, p as int),
        date == begin + day,
        days_remaining_in_week as int == 6 - (day as int) % 7,
        c0 == candidate_shift(day as int, 0),
        c1 == candidate_shift(day as int, 1),
    ensures
        res is Ok ==> mid_day_inv(*final(st), staff_ids@, begin, rules@, day as int, p + 1 as int),
        res is Err ==> rules@.len() > 0,
        res is Err ==> !schedulable(staff_ids@, begin, rules@),
        res matches Err(e) ==> stuck_evidence(e, staff_ids@, begin, rules@),
{
    let n = staff_ids.len();
    let ghost gn = n as int;
    let ghost dd = day as int;
    let i: usize = if day % 2 == 0 {
        p
    } else {
        n - 1 - p
    };
    let ghost ii = i as int;
    proof {
        assert(pos_in_day(gn, dd, ii) == p as int);
        assert(dd * gn >= 0) by (nonlinear_arith)
            requires
                dd >= 0,
                gn >= 0,
        ;
        assert(dd * gn + gn <= gn * (PERIOD_DAYS as int)) by (nonlinear_arith)
            requires
                0 <= dd < PERIOD_DAYS,
                gn >= 0,
        ;
    }
    let staff_id = staff_ids[i];
    let ctx = AssignmentContext {
        previous_shift: previous_shift_of(st, i),
        day_offs_this_week: weekly_day_offs_of(st, i),
        days_remaining_in_week,
        morning_count: st.morning_count,
        evening_count: st.evening_count,
    };
    let ghost q = st.assignments@.len() as int;
    proof {
        assert(order_index(gn, dd, ii) == q);
        lemma_day_off_count_bounds(st.assignments@, gn, ii, week_start(dd), dd);
        lemma_count_range_bounds(st.assignments@, ShiftType::Morning, dd * gn, q);
        lemma_count_range_bounds(st.assignments@, ShiftType::Evening, dd * gn, q);
        assert(ctx == spec_ctx(st.assignments@, gn, dd, ii));
    }

    let chosen: ShiftType;
    if rules_allow(rules, &ctx, &c0) {
        chosen = c0;
    } else if rules_allow(rules, &ctx, &c1) {
        chosen = c1;
    } else if rules_allow(rules, &ctx, &ShiftType::DayOff) {
        chosen = ShiftType::DayOff;
    } else {
        proof {
            // The run is genuinely stuck: the committed prefix is good and
            // every candidate for this slot is rejected, which rules out the
            // existence of any valid schedule at all.
            assert(staff_ids@[ii] == staff_id);
            assert(pos_in_day(gn, day as int, p as int) == ii);
            lemma_stuck_branch(
                *st,
                staff_ids@,
                begin,
                rules@,
                day as int,
                p as int,
                ii,
                staff_id,
                ctx,
                c0,
                c1,
            );
            assert(exists|i: int| 0 <= i < staff_ids@.len() && staff_ids@[i] == staff_id) by {
                assert(0 <= ii < staff_ids@.len() && staff_ids@[ii] == staff_id);
            };
            assert(exists|part: Seq<NewShiftAssignment>, pp: int| #[trigger] greedy_stuck(
                part,
                staff_ids@,
                begin,
                rules@,
                day as int,
                pp,
                staff_id,
            ));
            let e = SchedulingError::NoValidShift { staff_id, day };
            assert(e->staff_id == staff_id);
            assert(e->day == day);
            assert(stuck_evidence(e, staff_ids@, begin, rules@));
        }
        return Err(SchedulingError::NoValidShift { staff_id, day });
    }
    proof {
        assert(all_rules_valid(rules@, ctx, chosen));
        assert(candidate_shift(dd, 2) == ShiftType::DayOff);
        assert(forall|j: int|
            0 <= j < candidate_rank(dd, chosen) ==> !all_rules_valid(
                rules@,
                ctx,
                #[trigger] candidate_shift(dd, j),
            ));
    }

    match chosen {
        ShiftType::DayOff => {
            proof {
                lemma_day_off_count_bounds(st.assignments@, gn, ii, week_start(dd), dd);
            }
            let w = weekly_day_offs_of(st, i);
            st.weekly_day_offs[i] = w + 1;
        },
        ShiftType::Morning => {
            st.morning_count = st.morning_count + 1;
        },
        ShiftType::Evening => {
            st.evening_count = st.evening_count + 1;
        },
    }
    st.previous_shifts[i] = Some(chosen);

    let ghost old_assignments = st.assignments@;
    st.assignments.push(NewShiftAssignment { staff_id, date, shift_type: chosen });

    proof {
        let r2 = st.assignments@;
        assert(forall|k: int| 0 <= k < q ==> old_assignments[k] == #[trigger] r2[k]);
        assert(r2[q].shift_type == chosen);
        assert(assigned_shift(r2, gn, dd, ii) == chosen);

        // The newly committed slot is good under the context as the final
        // output derives it.
        lemma_ctx_stable(old_assignments, r2, gn, dd, ii);
        assert(spec_ctx(r2, gn, dd, ii) == ctx);
        assert(slot_ok(r2, staff_ids@, begin, rules@, dd, ii));

        // Slots committed earlier (this day and earlier days) survive the
        // append.
        assert forall|t: int| 0 <= t < gn && pos_in_day(gn, dd, t) < p as int implies #[trigger]
            slot_ok(r2, staff_ids@, begin, rules@, dd, t) by {
            assert(0 <= order_index(gn, dd, t) < q);
            lemma_slot_ok_stable(old_assignments, r2, staff_ids@, begin, rules@, dd, t);
        };
        assert forall|d2: int, t: int| 0 <= d2 < dd && 0 <= t < gn implies #[trigger] slot_ok(
            r2,
            staff_ids@,
            begin,
            rules@,
            d2,
            t,
        ) by {
            assert((d2 + 1) * gn <= dd * gn) by (nonlinear_arith)
                requires
                    0 <= d2 < dd,
                    gn >= 0,
            ;
            assert(d2 * gn + gn == (d2 + 1) * gn) by (nonlinear_arith);
            assert(d2 * gn >= 0) by (nonlinear_arith)
                requires
                    d2 >= 0,
                    gn >= 0,
            ;
            assert(0 <= order_index(gn, d2, t) < q);
            lemma_slot_ok_stable(old_assignments, r2, staff_ids@, begin, rules@, d2, t);
        };

        // Per-staff memories: the prior-day lookups of staff not yet
        // processed today are below today's base and survive.
        if dd > 0 {
            assert forall|t: int| 0 <= t < gn implies #[trigger] assigned_shift(r2, gn, dd - 1, t)
                == assigned_shift(old_assignments, gn, dd - 1, t) by {
                assert((dd - 1) * gn + gn == dd * gn) by (nonlinear_arith);
                assert((dd - 1) * gn >= 0) by (nonlinear_arith)
                    requires
                        dd >= 1,
                        gn >= 0,
                ;
                assert(0 <= order_index(gn, dd - 1, t) < q);
            };
        }
        assert forall|t: int| 0 <= t < gn && pos_in_day(gn, dd, t) < p as int implies #[trigger]
            assigned_shift(r2, gn, dd, t) == assigned_shift(old_assignments, gn, dd, t) by {
            assert(0 <= order_index(gn, dd, t) < q);
        };

        // Weekly tallies: counts through day `dd` survive; counts through
        // `dd + 1` pick up exactly the new slot for the staff member just
        // processed.
        assert forall|t: int| 0 <= t < gn implies #[trigger] day_off_count(
            r2,
            gn,
            t,
            week_start(dd),
            dd,
        ) == day_off_count(old_assignments, gn, t, week_start(dd), dd) by {
            lemma_day_off_count_stable(old_assignments, r2, gn, t, week_start(dd), dd);
        };
        assert forall|t: int| 0 <= t < gn && pos_in_day(gn, dd, t) < p as int implies #[trigger]
            day_off_count(r2, gn, t, week_start(dd), dd + 1) == day_off_count(
            old_assignments,
            gn,
            t,
            week_start(dd),
            dd + 1,
        ) by {
            assert(0 <= order_index(gn, dd, t) < q);
            lemma_day_off_count_stable(old_assignments, r2, gn, t, week_start(dd), dd);
        };
        assert(day_off_count(r2, gn, ii, week_start(dd), dd + 1) == day_off_count(
            r2,
            gn,
            ii,
            week_start(dd),
            dd,
        ) + (if chosen == ShiftType::DayOff {
            1int
        } else {
            0int
        }));

        // Morning/evening tallies extend by exactly the new slot.
        lemma_count_range_stable(old_assignments, r2, ShiftType::Morning, dd * gn, q);
        lemma_count_range_stable(old_assignments, r2, ShiftType::Evening, dd * gn, q);
        assert(count_shift_range(r2, ShiftType::Morning, dd * gn, q + 1) == count_shift_range(
            r2,
            ShiftType::Morning,
            dd * gn,
            q,
        ) + (if chosen == ShiftType::Morning {
            1int
        } else {
            0int
        }));
        assert(count_shift_range(r2, ShiftType::Evening, dd * gn, q + 1) == count_shift_range(
            r2,
            ShiftType::Evening,
            dd * gn,
            q,
        ) + (if chosen == ShiftType::Evening {
            1int
        } else {
            0int
        }));
    }
    Ok(())
}

/// Reads one previous-shift memory cell.
fn previous_shift_of(st: &GenState, i: usize) -> (r: Option<ShiftType>)
    requires
        i < st.previous_shifts@.len(),
    ensures
        r == st.previous_shifts@[i as int],
{
    st.previous_shifts[i]
}

/// Reads one weekly day-off tally.
fn weekly_day_offs_of(st: &GenState, i: usize) -> (r: u8)
    requires
        i < st.weekly_day_offs@.len(),
    ensures
        r == st.weekly_day_offs@[i as int],
{
    st.weekly_day_offs[i]
}

/// At a week boundary the weekly tallies are owed a reset; afterwards the
/// day may start with position 0 committed.
#[verifier::rlimit(30)]
fn start_day(st: &mut GenState, n: usize, day: usize, Ghost(staff): Ghost<Seq<u128>>, Ghost(begin): Ghost<int>, Ghost(rules): Ghost<Seq<Rule>>)
    requires
        day < PERIOD_DAYS,
        staff.len() == n,
        day_start_inv(*old(st), staff, begin, rules, day as int),
    ensures
        mid_day_inv(*final(st), staff, begin, rules, day as int, 0),
{
    let ghost dd = day as int;
    if day % DAYS_PER_WEEK == 0 {
        let mut t: usize = 0;
        while t < n
            invariant
                t <= n,
                st.weekly_day_offs@.len() == n,
                st.previous_shifts@ == old(st).previous_shifts@,
                st.assignments@ == old(st).assignments@,
                st.morning_count == old(st).morning_count,
                st.evening_count == old(st).evening_count,
                forall|i: int| 0 <= i < t ==> #[trigger] st.weekly_day_offs@[i] == 0u8,
            decreases n - t,
        {
            st.weekly_day_offs[t] = 0;
            t = t + 1;
        }
        proof {
            assert(week_start(dd) == dd);
            assert forall|i: int| 0 <= i < staff.len() as int implies #[trigger] st.weekly_day_offs@[i] as int
                == day_off_count(st.assignments@, staff.len() as int, i, week_start(dd), dd) by {};
        }
    }
    st.morning_count = 0;
    st.evening_count = 0;
}

/// Generates a 28-day shift schedule for the given staff.
///
/// Greedy assignment, day by day: staff order and shift preference alternate
/// with the day's parity for fairness, and `DayOff` is always tried last so
/// it is not consumed greedily. Weekly day-off counters reset every 7 days
/// from the period start. The same input always yields identical output: the
/// contract determines every committed shift uniquely.
///
/// Fails exactly when the input is infeasible: it returns `Ok` if and only
/// if some schedule satisfies the whole contract for this input. The error
/// names the staff member and the day (0-based) of the first slot at which
/// the greedy pass found every candidate rejected, witnessed by a committed
/// prefix that is itself good (`greedy_stuck`) — which pins the reported
/// slot uniquely — and the partial schedule is discarded.
#[verifier::rlimit(50)]
pub fn gen_schedule(
    staff_ids: &Vec<u128>,
    period_begin_date: i32,
    rules: &Vec<Rule>,
) -> (r: Result<Vec<NewShiftAssignment>, SchedulingError>)
    requires
        staff_ids@.len() * (PERIOD_DAYS as int) <= usize::MAX,
        period_begin_date + (PERIOD_DAYS as int) <= i32::MAX,
    ensures
        r matches Ok(out) ==> valid_schedule(out@, staff_ids@, period_begin_date as int, rules@),
        r matches Err(e) ==> stuck_evidence(e, staff_ids@, period_begin_date as int, rules@),
        r is Err ==> rules@.len() > 0,
        r is Ok <==> schedulable(staff_ids@, period_begin_date as int, rules@),
        staff_ids@.len() == 0 ==> r is Ok,
{
    let n = staff_ids.len();
    let ghost gn = n as int;
    let ghost begin = period_begin_date as int;

    let mut st = GenState {
        assignments: Vec::new(),
        previous_shifts: Vec::new(),
        weekly_day_offs: Vec::new(),
        morning_count: 0,
        evening_count: 0,
    };
    let mut k: usize = 0;
    while k < n
        invariant
            k <= n,
            st.previous_shifts@.len() == k,
            st.weekly_day_offs@.len() == k,
            st.assignments@.len() == 0,
            forall|t: int| 0 <= t < k ==> #[trigger] st.previous_shifts@[t] is None,
        decreases n - k,
    {
        st.previous_shifts.push(None);
        st.weekly_day_offs.push(0);
        k = k + 1;
    }

    let mut day: usize = 0;
    while day < PERIOD_DAYS
        invariant
            gn == staff_ids@.len(),
            begin == period_begin_date as int,
            gn * (PERIOD_DAYS as int) <= usize::MAX,
            begin + (PERIOD_DAYS as int) <= i32::MAX,
            n == gn,
            day <= PERIOD_DAYS,
            day_start_inv(st, staff_ids@, begin, rules@, day as int),
        decreases PERIOD_DAYS - day,
    {
        let ghost dd = day as int;
        let day_in_week = day % DAYS_PER_WEEK;
        let days_remaining_in_week: u8 = (DAYS_PER_WEEK - 1 - day_in_week) as u8;
        let date: i32 = period_begin_date + day as i32;
        let c0: ShiftType = if day % 2 == 0 {
            ShiftType::Morning
        } else {
            ShiftType::Evening
        };
        let c1: ShiftType = if day % 2 == 0 {
            ShiftType::Evening
        } else {
            ShiftType::Morning
        };

        start_day(&mut st, n, day, Ghost(staff_ids@), Ghost(begin), Ghost(rules@));

        let mut p: usize = 0;
        while p < n
            invariant
                gn == staff_ids@.len(),
                gn * (PERIOD_DAYS as int) <= usize::MAX,
                n == gn,
                dd == day as int,
                0 <= dd < PERIOD_DAYS,
                p <= n,
                begin == period_begin_date as int,
                date == begin + dd,
                days_remaining_in_week as int == 6 - dd % 7,
                c0 == candidate_shift(dd, 0),
                c1 == candidate_shift(dd, 1),
                mid_day_inv(st, staff_ids@, begin, rules@, dd, p as int),
            decreases n - p,
        {
            match assign_slot(
                &mut st,
                staff_ids,
                rules,
                day,
                p,
                date,
                days_remaining_in_week,
                c0,
                c1,
                Ghost(begin),
            ) {
                Ok(()) => {},
                Err(e) => {
                    return Err(e);
                },
            }
            p = p + 1;
        }

        proof {
            assert(dd * gn + gn == (dd + 1) * gn) by (nonlinear_arith);
            if (day + 1) % 7 != 0 {
                assert(week_start(dd + 1) == week_start(dd));
            }
            assert forall|i: int| 0 <= i < gn implies pos_in_day(gn, dd, i) < gn by {};
            assert(day_start_inv(st, staff_ids@, begin, rules@, dd + 1));
        }
        day = day + 1;
    }

    proof {
        assert((PERIOD_DAYS as int) * gn == gn * (PERIOD_DAYS as int)) by (nonlinear_arith);
        assert(valid_schedule(st.assignments@, staff_ids@, begin, rules@));
        assert(schedulable(staff_ids@, begin, rules@));
    }
    Ok(st.assignments)
}

} // verus!
