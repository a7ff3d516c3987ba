mod calendar;
mod cycle;
mod error;
mod laws;
mod schedule;
mod snapshot;

pub use calendar::{
    lemma_count_workdays_bounds, lemma_count_workdays_positive, lemma_first_workday_unique,
    lemma_last_workday_unique, WorkCalendar,
};
pub use cycle::{for_month_spec, next_month_start_spec, PayRates, PayrollCycle, WORK_HOURS_PER_DAY};
pub use error::PayrollError;
pub use schedule::{
    afternoon_start_secs, effective_work_seconds, law_effective_seconds_frozen_during_lunch,
    law_effective_seconds_monotonic, law_full_day_after_work_end, law_non_workday_accrues_nothing,
    lunch_start_secs, spec_effective_seconds, spec_work_status, work_end_secs, work_start_secs,
    work_status, WorkStatus, MORNING_SECONDS, WORK_SECONDS_PER_DAY,
};
pub use snapshot::{
    calculate_payroll_snapshot, completed_workdays_spec, elapsed_seconds_spec, is_salary_scalable_at,
    proportional_salary_spec, salary_scalable_at, today_seconds_spec, total_cycle_seconds,
    PayrollSnapshot,
};
pub use laws::{
    law_cycle_covers_the_months_workdays, law_cycle_earned_at_end_is_monthly_salary,
    law_elapsed_seconds_bounded, law_only_days_of_the_cycle_accrue, lemma_count_skip_prefix, lemma_count_skip_suffix,
    law_elapsed_seconds_monotonic, lemma_count_workdays_monotonic,
};
