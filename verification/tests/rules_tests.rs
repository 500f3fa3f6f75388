use scheduling_service::config::SchedulingConfig;
use scheduling_service::rules::{
    AssignmentContext, DailyBalanceRule, MaxDayOffRule, MinDayOffRule, NoMorningAfterEveningRule,
    SchedulingRule,
};
use scheduling_service::types::ShiftType;

fn default_config() -> SchedulingConfig {
    SchedulingConfig::default()
}

#[test]
fn no_morning_after_evening_rule_blocks() {
    let rule = NoMorningAfterEveningRule;
    let ctx = AssignmentContext {
        previous_shift: Some(ShiftType::Evening),
        day_offs_this_week: 0,
        days_remaining_in_week: 6,
        morning_count: 0,
        evening_count: 0,
    };
    assert!(!rule.is_valid(&ctx, &ShiftType::Morning));
}

#[test]
fn no_morning_after_evening_rule_allows_evening_after_evening() {
    let rule = NoMorningAfterEveningRule;
    let ctx = AssignmentContext {
        previous_shift: Some(ShiftType::Evening),
        day_offs_this_week: 0,
        days_remaining_in_week: 6,
        morning_count: 0,
        evening_count: 0,
    };
    assert!(rule.is_valid(&ctx, &ShiftType::Evening));
}

#[test]
fn max_day_off_rule_blocks_excess() {
    let rule = MaxDayOffRule { max: 2 };
    let ctx = AssignmentContext {
        previous_shift: None,
        day_offs_this_week: 2,
        days_remaining_in_week: 4,
        morning_count: 0,
        evening_count: 0,
    };
    assert!(!rule.is_valid(&ctx, &ShiftType::DayOff));
}

#[test]
fn max_day_off_rule_allows_under_max() {
    let rule = MaxDayOffRule { max: 2 };
    let ctx = AssignmentContext {
        previous_shift: None,
        day_offs_this_week: 1,
        days_remaining_in_week: 4,
        morning_count: 0,
        evening_count: 0,
    };
    assert!(rule.is_valid(&ctx, &ShiftType::DayOff));
}

#[test]
fn min_day_off_rule_forces_day_off() {
    let rule = MinDayOffRule { min: 1 };
    // 0 day offs, 0 days remaining -> working shift must be rejected
    let ctx = AssignmentContext {
        previous_shift: None,
        day_offs_this_week: 0,
        days_remaining_in_week: 0,
        morning_count: 0,
        evening_count: 0,
    };
    assert!(!rule.is_valid(&ctx, &ShiftType::Morning));
}

#[test]
fn daily_balance_rule_rejects_imbalance() {
    let rule = DailyBalanceRule { max_diff: 1 };
    // 3 morning, 1 evening -> adding morning would make diff 3
    let ctx = AssignmentContext {
        previous_shift: None,
        day_offs_this_week: 0,
        days_remaining_in_week: 6,
        morning_count: 3,
        evening_count: 1,
    };
    assert!(!rule.is_valid(&ctx, &ShiftType::Morning));
}

#[test]
fn daily_balance_rule_day_off_always_passes() {
    let rule = DailyBalanceRule { max_diff: 1 };
    let ctx = AssignmentContext {
        previous_shift: None,
        day_offs_this_week: 0,
        days_remaining_in_week: 6,
        morning_count: 10,
        evening_count: 0,
    };
    assert!(rule.is_valid(&ctx, &ShiftType::DayOff));
}

#[test]
fn build_rules_includes_morning_after_evening_when_enabled() {
    let config = default_config();
    let rules = config.build_rules();
    assert!(rules.iter().any(|r| r.name() == "no_morning_after_evening"));
}

#[test]
fn build_rules_excludes_morning_after_evening_when_disabled() {
    let config = SchedulingConfig {
        no_morning_after_evening: false,
        ..default_config()
    };
    let rules = config.build_rules();
    assert!(!rules.iter().any(|r| r.name() == "no_morning_after_evening"));
}

#[test]
fn build_rules_reflects_every_configured_parameter() {
    let config = default_config();
    let rules = config.build_rules();
    let names: Vec<&str> = rules.iter().map(|r| r.name()).collect();
    assert_eq!(
        names,
        vec![
            "no_morning_after_evening",
            "max_day_off",
            "min_day_off",
            "daily_balance"
        ]
    );
}

#[test]
fn validate_rejects_min_above_max() {
    let config = SchedulingConfig {
        min_day_off_per_week: Some(3),
        max_day_off_per_week: Some(2),
        ..default_config()
    };
    assert!(config.validate().is_err());
}

#[test]
fn validate_rejects_max_of_seven_or_more() {
    let config = SchedulingConfig {
        min_day_off_per_week: Some(1),
        max_day_off_per_week: Some(7),
        ..default_config()
    };
    assert!(config.validate().is_err());
}

#[test]
fn validate_accepts_defaults() {
    assert!(default_config().validate().is_ok());
}
