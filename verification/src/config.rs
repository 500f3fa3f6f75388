//! Scheduling configuration: rule parameters, circuit breaker settings and
//! health check timing.
//!
//! Reading the TOML file is left to the binary around the library; this
//! module owns the defaults, the validation of the day-off bounds, and the
//! construction of the rule list.

use vstd::prelude::*;

use crate::circuit_breaker::CircuitBreakerConfig;
use crate::error::ConfigError;
use crate::rules::{
    DailyBalanceRule, MaxDayOffRule, MinDayOffRule, NoMorningAfterEveningRule, Rule,
};

verus! {

/// Health check timing as it stands in the configuration file.
#[derive(Clone, Copy, Debug, PartialEq, Eq, Structural)]
pub struct HealthCheckSettings {
    pub interval_secs: u64,
    pub timeout_secs: u64,
}

impl Default for HealthCheckSettings {
    /// Probe every 10 s, with a 5 s timeout.
    fn default() -> (r: Self)
        ensures
            r.interval_secs == 10,
            r.timeout_secs == 5,
    {
        HealthCheckSettings { interval_secs: 10, timeout_secs: 5 }
    }
}

/// Resolved health check configuration, carrying the full liveness endpoint
/// of the data service.
#[derive(Clone, Debug)]
pub struct HealthCheckConfig {
    pub interval_secs: u64,
    pub health_endpoint: String,
    pub timeout_secs: u64,
}

impl HealthCheckConfig {
    /// Converts file settings into a resolved config against the data
    /// service base URL.
    pub fn from_settings(settings: &HealthCheckSettings, data_service_url: &str) -> (r: Self)
        ensures
            r.interval_secs == settings.interval_secs,
            r.timeout_secs == settings.timeout_secs,
            r.health_endpoint@ == data_service_url@ + "/headpat"@,
    {
        HealthCheckConfig {
            interval_secs: settings.interval_secs,
            health_endpoint: data_service_url.to_owned().concat("/headpat"),
            timeout_secs: settings.timeout_secs,
        }
    }
}

/// Scheduling configuration controlling the rule list, the circuit breaker
/// and the health check.
#[derive(Clone, Debug)]
pub struct SchedulingConfig {
    pub timezone: String,
    pub min_day_off_per_week: Option<u8>,
    pub max_day_off_per_week: Option<u8>,
    pub no_morning_after_evening: bool,
    pub max_daily_shift_diff: Option<u8>,
    pub circuit_breaker: CircuitBreakerConfig,
    pub health_check: HealthCheckSettings,
}

impl Default for SchedulingConfig {
    /// UTC, 1–2 days off per week, no morning after evening, a daily
    /// morning/evening imbalance of at most 1.
    fn default() -> (r: Self)
        ensures
            r.timezone@ == "UTC"@,
            r.min_day_off_per_week == Some(1u8),
            r.max_day_off_per_week == Some(2u8),
            r.no_morning_after_evening,
            r.max_daily_shift_diff == Some(1u8),
            r.circuit_breaker.failure_threshold == 5,
            r.circuit_breaker.cooldown_secs == 30,
            r.health_check.interval_secs == 10,
            r.health_check.timeout_secs == 5,
    {
        SchedulingConfig {
            timezone: "UTC".to_owned(),
            min_day_off_per_week: Some(1),
            max_day_off_per_week: Some(2),
            no_morning_after_evening: true,
            max_daily_shift_diff: Some(1),
            circuit_breaker: CircuitBreakerConfig { failure_threshold: 5, cooldown_secs: 30 },
            health_check: HealthCheckSettings { interval_secs: 10, timeout_secs: 5 },
        }
    }
}

impl SchedulingConfig {
    /// Whether the day-off bounds are consistent: when both are present the
    /// minimum must not exceed the maximum, and the maximum must leave at
    /// least one working day per week.
    pub open spec fn spec_valid(&self) -> bool {
        match (self.min_day_off_per_week, self.max_day_off_per_week) {
            (Some(min), Some(max)) => min <= max && max < 7,
            _ => true,
        }
    }

    /// Rejects a configuration whose day-off bounds are contradictory.
    pub fn validate(&self) -> (r: Result<(), ConfigError>)
        ensures
            r is Ok <==> self.spec_valid(),
    {
        if let (Some(min), Some(max)) = (self.min_day_off_per_week, self.max_day_off_per_week) {
            if min > max {
                return Err(ConfigError::Invalid);
            }
            if max >= 7 {
                return Err(ConfigError::Invalid);
            }
        }
        Ok(())
    }

    /// The rule list this configuration calls for, in order: the
    /// morning-after-evening guard, then the day-off maximum, minimum, and
    /// the daily balance — each present exactly when configured.
    pub open spec fn spec_build_rules(&self) -> Seq<Rule> {
        (if self.no_morning_after_evening {
            seq![Rule::NoMorningAfterEvening(NoMorningAfterEveningRule)]
        } else {
            Seq::empty()
        }) + (match self.max_day_off_per_week {
            Some(max) => seq![Rule::MaxDayOff(MaxDayOffRule { max })],
            None => Seq::empty(),
        }) + (match self.min_day_off_per_week {
            Some(min) => seq![Rule::MinDayOff(MinDayOffRule { min })],
            None => Seq::empty(),
        }) + (match self.max_daily_shift_diff {
            Some(max_diff) => seq![Rule::DailyBalance(DailyBalanceRule { max_diff })],
            None => Seq::empty(),
        })
    }

    /// Constructs the list of scheduling rules from the configuration.
    pub fn build_rules(&self) -> (r: Vec<Rule>)
        ensures
            r@ == self.spec_build_rules(),
            self.no_morning_after_evening ==> r@.contains(
                Rule::NoMorningAfterEvening(NoMorningAfterEveningRule),
            ),
            self.max_day_off_per_week matches Some(max) ==> r@.contains(
                Rule::MaxDayOff(MaxDayOffRule { max }),
            ),
            self.min_day_off_per_week matches Some(min) ==> r@.contains(
                Rule::MinDayOff(MinDayOffRule { min }),
            ),
            self.max_daily_shift_diff matches Some(max_diff) ==> r@.contains(
                Rule::DailyBalance(DailyBalanceRule { max_diff }),
            ),
    {
        let mut rules: Vec<Rule> = Vec::new();
        let ghost mut idx_nme: int = 0;
        let ghost mut idx_max: int = 0;
        let ghost mut idx_min: int = 0;
        let ghost mut idx_bal: int = 0;
        if self.no_morning_after_evening {
            proof {
                idx_nme = rules@.len() as int;
            }
            rules.push(Rule::NoMorningAfterEvening(NoMorningAfterEveningRule));
        }
        if let Some(max) = self.max_day_off_per_week {
            proof {
                idx_max = rules@.len() as int;
            }
            rules.push(Rule::MaxDayOff(MaxDayOffRule { max }));
        }
        if let Some(min) = self.min_day_off_per_week {
            proof {
                idx_min = rules@.len() as int;
            }
            rules.push(Rule::MinDayOff(MinDayOffRule { min }));
        }
        if let Some(max_diff) = self.max_daily_shift_diff {
            proof {
                idx_bal = rules@.len() as int;
            }
            rules.push(Rule::DailyBalance(DailyBalanceRule { max_diff }));
        }
        proof {
            assert(rules@ =~= self.spec_build_rules());
            if self.no_morning_after_evening {
                assert(rules@[idx_nme] == Rule::NoMorningAfterEvening(NoMorningAfterEveningRule));
            }
            match self.max_day_off_per_week {
                Some(max) => {
                    assert(rules@[idx_max] == Rule::MaxDayOff(MaxDayOffRule { max }));
                },
                None => {},
            }
            match self.min_day_off_per_week {
                Some(min) => {
                    assert(rules@[idx_min] == Rule::MinDayOff(MinDayOffRule { min }));
                },
                None => {},
            }
            match self.max_daily_shift_diff {
                Some(max_diff) => {
                    assert(rules@[idx_bal] == Rule::DailyBalance(DailyBalanceRule { max_diff }));
                },
                None => {},
            }
        }
        rules
    }

    /// Parses the configured time zone, falling back to UTC when the name is
    /// not a known IANA zone.
    pub fn timezone(&self) -> chrono_tz::Tz {
        match crate::time::parse_timezone(self.timezone.as_str()) {
            Some(tz) => tz,
            None => crate::time::utc_timezone(),
        }
    }
}

} // verus!
