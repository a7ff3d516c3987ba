mod dto;
mod environment;
mod error;
mod salary;
mod laws;
mod service;

pub use dto::{
    AppSettingsDto, AppSnapshotDto, CalendarDayDto, CalendarMonthDto, CollectedWalletDto,
    CollectionLedgerEntryDto, LiveRewardEventDto, LiveRewardStatusDto, LiveRewardTypeDto,
    OfflineRewardBagDto, OfflineSummaryDto, PayrollCycleDto, RealPayrollDto, RewardCountsDto,
    RewardEntitlementDto, RewardValuesDto, SalaryConfigurationDto, SalaryCycleDto, WalletDisplayMode,
};
pub use error::ApplicationError;
pub use laws::{
    law_materialize_same_seconds_again, law_offline_entitlements_are_the_cycles_workdays,
    law_offline_reconcile_pays_nothing_twice, law_reconcile_again_pays_nothing,
};
pub use environment::{holiday_name_in, ApplicationEnvironment, DEFAULT_CALENDAR_VERSION};
pub use service::{
    bag_values_in_range, law_settings_read_back, live_synced, offline_reconciled_at, pending_events_shown,
    shows_snapshot, snapshot_in_range, stored_settings, unclaimed_bags_shown, ApplicationContext,
    ApplicationService,
};
pub use salary::{
    calendar_month_outcome, current_cycle_available, current_cycle_id, current_salary, cycle_id,
    cycle_taken_or_made, frozen_with_other_salary, initialized_in, next_salary_makes_cycle, next_salary_setting,
    parse_positive_salary, salary_initialized, salary_text_makes_cycle,
    positive_salary_of, usable_context, weekday_code, SalaryConfigurationService,
};
