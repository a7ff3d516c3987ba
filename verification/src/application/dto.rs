//! The plain values the application hands to its front end.
use vstd::prelude::*;

verus! {

/// Which wallet the front end shows.
#[derive(Clone, Copy, Debug, PartialEq, Eq, Structural)]
pub enum WalletDisplayMode {
    RealSalary,
    CollectedWallet,
}

#[derive(Clone, Debug, PartialEq, Eq)]
pub struct AppSettingsDto {
    pub wallet_display_mode: WalletDisplayMode,
    pub sound_enabled: bool,
    pub auto_collect_enabled: bool,
}

impl Default for AppSettingsDto {
    /// The real-salary wallet, with sound and automatic collection on.
    fn default() -> (res: AppSettingsDto)
        ensures
            res.wallet_display_mode == WalletDisplayMode::RealSalary,
            res.sound_enabled,
            res.auto_collect_enabled,
    {
        AppSettingsDto {
            wallet_display_mode: WalletDisplayMode::RealSalary,
            sound_enabled: true,
            auto_collect_enabled: true,
        }
    }
}

#[derive(Clone, Debug, PartialEq, Eq)]
pub struct RewardCountsDto {
    pub silver: u64,
    pub gold: u64,
    pub diamond: u64,
}

#[derive(Clone, Debug, PartialEq, Eq)]
pub struct RewardValuesDto {
    pub silver_exact: String,
    pub gold_exact: String,
    pub diamond_exact: String,
}

#[derive(Clone, Debug, PartialEq, Eq)]
pub struct PayrollCycleDto {
    pub cycle_id: String,
    pub start_date: String,
    pub end_date: String,
    pub workday_count: u32,
    pub monthly_salary_exact: String,
    pub daily_salary_exact: String,
    pub hourly_salary_exact: String,
}

#[derive(Clone, Debug, PartialEq, Eq)]
pub struct RealPayrollDto {
    pub today_real_earned_exact: String,
    pub cycle_real_earned_exact: String,
}

#[derive(Clone, Debug, PartialEq, Eq)]
pub struct RewardEntitlementDto {
    pub today: RewardCountsDto,
    pub values: RewardValuesDto,
}

#[derive(Clone, Debug, PartialEq, Eq)]
pub struct CollectedWalletDto {
    pub today_collected_exact: String,
    pub cycle_collected_exact: String,
}

#[derive(Clone, Debug, PartialEq, Eq)]
pub struct OfflineSummaryDto {
    pub unclaimed_bag_count: u64,
    pub unclaimed_exact_total: String,
}

#[derive(Clone, Debug, PartialEq, Eq)]
pub struct AppSnapshotDto {
    pub current_local_time: String,
    pub work_status: String,
    pub effective_work_seconds_today: u32,
    pub payroll_cycle: PayrollCycleDto,
    pub real_payroll: RealPayrollDto,
    pub reward_entitlement: RewardEntitlementDto,
    pub collected_wallet: CollectedWalletDto,
    pub offline: OfflineSummaryDto,
}

#[derive(Clone, Debug, PartialEq, Eq)]
pub struct OfflineRewardBagDto {
    pub bag_id: String,
    pub cycle_id: String,
    pub period_start: String,
    pub period_end: String,
    pub counts: RewardCountsDto,
    pub exact_value: String,
    pub created_at: String,
}

#[derive(Clone, Debug, PartialEq, Eq)]
pub struct CollectionLedgerEntryDto {
    pub transaction_id: String,
    pub cycle_id: String,
    pub source_type: String,
    pub source_id: String,
    pub counts: RewardCountsDto,
    pub exact_value: String,
    pub created_at: String,
}

#[derive(Clone, Copy, Debug, PartialEq, Eq, Structural)]
pub enum LiveRewardTypeDto {
    Silver,
    Gold,
    Diamond,
}

#[derive(Clone, Copy, Debug, PartialEq, Eq, Structural)]
pub enum LiveRewardStatusDto {
    Pending,
    Collected,
    Packaged,
}

#[derive(Clone, Debug, PartialEq, Eq)]
pub struct LiveRewardEventDto {
    pub event_id: String,
    pub cycle_id: String,
    pub work_date: String,
    pub effective_second_boundary: u64,
    pub event_index: u64,
    pub reward_type: LiveRewardTypeDto,
    pub status: LiveRewardStatusDto,
    pub exact_value: String,
    pub created_at: String,
}

#[derive(Clone, Debug, PartialEq, Eq)]
pub struct SalaryCycleDto {
    pub cycle_id: String,
    pub start_date: String,
    pub end_date: String,
    pub workday_count: u32,
    pub monthly_salary_exact: String,
    pub daily_salary_exact: String,
    pub hourly_salary_exact: String,
    pub per_second_salary_exact: String,
    pub silver_value_exact: String,
    pub gold_value_exact: String,
    pub diamond_value_exact: String,
}

#[derive(Clone, Debug, PartialEq, Eq)]
pub struct SalaryConfigurationDto {
    pub is_initialized: bool,
    pub timezone: String,
    pub current_year: i32,
    pub current_month: u32,
    pub current_cycle: Option<SalaryCycleDto>,
    pub next_cycle_salary_exact: Option<String>,
}

#[derive(Clone, Debug, PartialEq, Eq)]
pub struct CalendarDayDto {
    pub date: String,
    pub weekday: String,
    pub is_workday: bool,
    pub is_weekend: bool,
    pub is_holiday: bool,
    pub holiday_name: Option<String>,
}

#[derive(Clone, Debug, PartialEq, Eq)]
pub struct CalendarMonthDto {
    pub year: i32,
    pub month: u32,
    pub timezone: String,
    pub cycle_id: String,
    pub cycle_start: String,
    pub cycle_end: String,
    pub workday_count: u32,
    pub payday: String,
    pub days: Vec<CalendarDayDto>,
}

} // verus!
