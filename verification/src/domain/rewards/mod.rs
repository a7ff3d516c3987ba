mod counts;
mod event;
mod laws;
mod snapshot;
mod values;

pub use counts::{
    counts_for_seconds, counts_of_seconds, RewardCounts, DIAMOND_INTERVAL_SECONDS, DIAMOND_WEIGHT,
    GOLD_INTERVAL_SECONDS, GOLD_PER_HOUR, GOLD_WEIGHT, SILVER_INTERVAL_SECONDS, SILVER_PER_HOUR,
    SILVER_WEIGHT,
};
pub use event::{event_type_spec, RewardType};
pub use snapshot::{calculate_reward_snapshot, reward_snapshot_from_payroll, RewardSnapshot};
pub use values::{lemma_pow10_positive, total_in_range, RewardValues, REWARD_WORK_HOURS_PER_DAY, WEIGHTED_UNITS_PER_HOUR};
pub use laws::{
    law_complete_hours_counts, law_counts_monotonic, law_counts_only_change_on_boundaries,
    law_cycle_value_is_monthly_salary, law_day_value_is_daily_pay, law_hour_value_is_hourly_pay,
    law_event_value_is_its_weight_in_silvers, law_next_boundary_adds_its_event, law_total_events_per_ten_seconds,
};
