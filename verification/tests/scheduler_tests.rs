use chrono::Datelike;
use scheduling_service::config::SchedulingConfig;
use scheduling_service::error::SchedulingError;
use scheduling_service::rules::{DailyBalanceRule, MaxDayOffRule, Rule};
use scheduling_service::scheduler::gen_schedule;
use scheduling_service::types::{NewShiftAssignment, ShiftType};

const PERIOD_DAYS: usize = 28;
const DAYS_PER_WEEK: usize = 7;

fn default_config() -> SchedulingConfig {
    SchedulingConfig::default()
}

fn monday() -> i32 {
    chrono::NaiveDate::from_ymd_opt(2026, 2, 16)
        .unwrap()
        .num_days_from_ce()
}

fn validate_schedule(
    assignments: &[NewShiftAssignment],
    staff_ids: &[u128],
    config: &SchedulingConfig,
) {
    let begin_date = assignments[0].date;

    for &sid in staff_ids {
        let staff_assignments: Vec<_> = assignments.iter().filter(|a| a.staff_id == sid).collect();
        assert_eq!(
            staff_assignments.len(),
            PERIOD_DAYS,
            "Staff {sid} should have {PERIOD_DAYS} assignments"
        );

        if config.no_morning_after_evening {
            for w in staff_assignments.windows(2) {
                assert!(
                    !(w[0].shift_type == ShiftType::Evening
                        && w[1].shift_type == ShiftType::Morning),
                    "Staff {sid} has morning after evening on day {}",
                    w[1].date
                );
            }
        }

        for week in 0..(PERIOD_DAYS / DAYS_PER_WEEK) {
            let start = week * DAYS_PER_WEEK;
            let end = start + DAYS_PER_WEEK;
            let day_offs = staff_assignments[start..end]
                .iter()
                .filter(|a| a.shift_type == ShiftType::DayOff)
                .count() as u8;
            if let Some(min) = config.min_day_off_per_week {
                assert!(
                    day_offs >= min,
                    "Staff {sid} week {week}: {day_offs} < min {min}"
                );
            }
            if let Some(max) = config.max_day_off_per_week {
                assert!(
                    day_offs <= max,
                    "Staff {sid} week {week}: {day_offs} > max {max}"
                );
            }
        }
    }

    if let Some(max_diff) = config.max_daily_shift_diff {
        for day in 0..PERIOD_DAYS {
            let date = begin_date + day as i32;
            let morning = assignments
                .iter()
                .filter(|a| a.date == date && a.shift_type == ShiftType::Morning)
                .count();
            let evening = assignments
                .iter()
                .filter(|a| a.date == date && a.shift_type == ShiftType::Evening)
                .count();
            assert!(
                morning.abs_diff(evening) <= max_diff as usize,
                "Day {date}: morning={morning} evening={evening} exceeds max diff {max_diff}"
            );
        }
    }
}

#[test]
fn gen_schedule_single_staff() {
    let staff_ids = vec![101u128];
    let config = default_config();
    let rules = config.build_rules();
    let assignments = gen_schedule(&staff_ids, monday(), &rules).unwrap();
    validate_schedule(&assignments, &staff_ids, &config);
}

#[test]
fn gen_schedule_multiple_staff() {
    let staff_ids: Vec<u128> = vec![1, 2, 3, 4];
    let config = default_config();
    let rules = config.build_rules();
    let assignments = gen_schedule(&staff_ids, monday(), &rules).unwrap();
    assert_eq!(assignments.len(), 4 * PERIOD_DAYS);
    validate_schedule(&assignments, &staff_ids, &config);
}

#[test]
fn gen_schedule_empty_staff() {
    let config = default_config();
    let rules = config.build_rules();
    let staff_ids: Vec<u128> = Vec::new();
    let output = gen_schedule(&staff_ids, monday(), &rules).unwrap();
    assert!(output.is_empty());
}

#[test]
fn gen_schedule_relaxed_config() {
    let staff_ids: Vec<u128> = vec![11, 22, 33, 44];
    let config = SchedulingConfig {
        no_morning_after_evening: false,
        max_daily_shift_diff: Some(4),
        ..default_config()
    };
    let rules = config.build_rules();
    let assignments = gen_schedule(&staff_ids, monday(), &rules).unwrap();
    validate_schedule(&assignments, &staff_ids, &config);
}

#[test]
fn gen_schedule_large_staff_group() {
    let staff_ids: Vec<u128> = (0..20).collect();
    let config = default_config();
    let rules = config.build_rules();
    let assignments = gen_schedule(&staff_ids, monday(), &rules).unwrap();
    assert_eq!(assignments.len(), 20 * PERIOD_DAYS);
    validate_schedule(&assignments, &staff_ids, &config);
}

#[test]
fn gen_schedule_is_deterministic() {
    let staff_ids: Vec<u128> = vec![5, 6, 7, 8];
    let config = default_config();
    let rules = config.build_rules();
    let first = gen_schedule(&staff_ids, monday(), &rules).unwrap();
    let second = gen_schedule(&staff_ids, monday(), &rules).unwrap();
    assert_eq!(first, second);
}

#[test]
fn gen_schedule_exact_first_week_single_staff() {
    // One staff member, default rules. Day 0 prefers Morning; day 1 prefers
    // Evening but the morning-after-evening guard does not apply to
    // Evening-after-Morning, so Evening is taken; day 2 prefers Morning but
    // follows an Evening, so Evening again; and so on. The last day of the
    // week owes the single minimum day off.
    let staff_ids = vec![9u128];
    let config = default_config();
    let rules = config.build_rules();
    let assignments = gen_schedule(&staff_ids, monday(), &rules).unwrap();
    let week: Vec<ShiftType> = assignments[0..7].iter().map(|a| a.shift_type).collect();
    assert_eq!(
        week,
        vec![
            ShiftType::Morning,
            ShiftType::Evening,
            ShiftType::Evening,
            ShiftType::Evening,
            ShiftType::Evening,
            ShiftType::Evening,
            ShiftType::DayOff,
        ]
    );
}

#[test]
fn gen_schedule_reports_first_infeasible_slot() {
    // A zero daily balance forbids both working shifts for a single staff
    // member, and the day-off maximum runs out after two days.
    let staff_ids = vec![77u128];
    let rules = vec![
        Rule::MaxDayOff(MaxDayOffRule { max: 2 }),
        Rule::DailyBalance(DailyBalanceRule { max_diff: 0 }),
    ];
    let result = gen_schedule(&staff_ids, monday(), &rules);
    match result {
        Err(SchedulingError::NoValidShift { staff_id, day }) => {
            assert_eq!(staff_id, 77);
            assert_eq!(day, 2);
        }
        Ok(_) => panic!("expected infeasibility"),
    }
}

#[test]
fn gen_schedule_error_is_deterministic() {
    // The infeasibility error is pinned too: two runs on one input report
    // the same stuck slot.
    let staff_ids = vec![77u128];
    let rules = vec![
        Rule::MaxDayOff(MaxDayOffRule { max: 2 }),
        Rule::DailyBalance(DailyBalanceRule { max_diff: 0 }),
    ];
    let first = gen_schedule(&staff_ids, monday(), &rules);
    let second = gen_schedule(&staff_ids, monday(), &rules);
    assert_eq!(first, second);
    assert!(first.is_err());
}

#[test]
fn gen_schedule_min_day_off_with_single_staff_remains_feasible() {
    // The feasible end of the infeasible-configuration boundary: a minimum
    // of one day off with the morning-after-evening guard and one staff.
    let config = SchedulingConfig {
        min_day_off_per_week: Some(1),
        max_day_off_per_week: None,
        no_morning_after_evening: true,
        max_daily_shift_diff: None,
        ..default_config()
    };
    let staff_ids = vec![3u128];
    let rules = config.build_rules();
    let assignments = gen_schedule(&staff_ids, monday(), &rules).unwrap();
    assert_eq!(assignments.len(), PERIOD_DAYS);
    for week in 0..4 {
        let day_offs = assignments[week * 7..week * 7 + 7]
            .iter()
            .filter(|a| a.shift_type == ShiftType::DayOff)
            .count();
        assert!(day_offs >= 1);
    }
}

#[test]
fn gen_schedule_dates_cover_exactly_the_period() {
    let staff_ids: Vec<u128> = vec![1, 2];
    let config = default_config();
    let rules = config.build_rules();
    let begin = monday();
    let assignments = gen_schedule(&staff_ids, begin, &rules).unwrap();
    for staff in &staff_ids {
        let mut dates: Vec<i32> = assignments
            .iter()
            .filter(|a| a.staff_id == *staff)
            .map(|a| a.date)
            .collect();
        dates.sort_unstable();
        let expected: Vec<i32> = (0..28).map(|d| begin + d).collect();
        assert_eq!(dates, expected);
    }
}
