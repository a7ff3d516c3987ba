use vstd::prelude::*;

use crate::domain::rewards::{RewardCounts, RewardType};
use crate::money::Money;
use crate::time::{Date, Instant};

verus! {

/// A frozen payroll cycle with its derived rates and denomination values.
#[derive(Debug)]
pub struct PayrollCycleRecord {
    pub cycle_id: String,
    pub salary_month: Date,
    pub start_date: Date,
    pub end_date: Date,
    pub monthly_salary: Money,
    pub workday_count: u32,
    pub daily_pay: Money,
    pub hourly_pay: Money,
    pub per_second_pay: Money,
    pub silver_value: Money,
    pub gold_value: Money,
    pub diamond_value: Money,
    pub timezone: String,
    pub calendar_version: String,
    pub created_at: Instant,
}

/// Per cycle and work date: the reward entitlement, what has been accounted (materialized
/// as live events or packed into bags) and what has been collected into the wallet.
#[derive(Debug)]
pub struct DailyRewardState {
    pub cycle_id: String,
    pub work_date: Date,
    pub entitled: RewardCounts,
    pub accounted: RewardCounts,
    pub collected: RewardCounts,
    pub updated_at: Instant,
}

/// A bag of rewards accounted while the application was not showing them.
#[derive(Debug)]
pub struct OfflineRewardBag {
    pub bag_id: String,
    pub cycle_id: String,
    pub period_start: Instant,
    pub period_end: Instant,
    pub counts: RewardCounts,
    pub exact_value: Money,
    pub created_at: Instant,
    pub claimed: bool,
    pub claimed_at: Option<Instant>,
}

/// The per-work-date part of an offline reward bag.
#[derive(Debug)]
pub struct OfflineRewardBagItem {
    pub bag_id: String,
    pub work_date: Date,
    pub counts: RewardCounts,
}

/// One collection into the game wallet.
#[derive(Debug)]
pub struct CollectionLedgerEntry {
    pub transaction_id: String,
    pub cycle_id: String,
    pub source_type: String,
    pub source_id: String,
    pub counts: RewardCounts,
    pub exact_value: Money,
    pub created_at: Instant,
}

/// The totals of collection ledger entries.
#[derive(Clone, Copy, Debug)]
pub struct WalletTotals {
    pub counts: RewardCounts,
    pub exact_value: Money,
}

/// The settlement state of a live reward event.
#[derive(Clone, Copy, Debug, PartialEq, Eq, Structural)]
pub enum LiveRewardStatus {
    Pending,
    Collected,
    Packaged,
}

impl LiveRewardStatus {
    pub open spec fn code_spec(self) -> Seq<char> {
        match self {
            LiveRewardStatus::Pending => "PENDING"@,
            LiveRewardStatus::Collected => "COLLECTED"@,
            LiveRewardStatus::Packaged => "PACKAGED"@,
        }
    }

    pub fn as_code(self) -> (res: &'static str)
        ensures
            res@ == self.code_spec(),
    {
        match self {
            LiveRewardStatus::Pending => "PENDING",
            LiveRewardStatus::Collected => "COLLECTED",
            LiveRewardStatus::Packaged => "PACKAGED",
        }
    }
}

/// A materialized, collectable reward event with a stable identity.
#[derive(Debug)]
pub struct LiveRewardEvent {
    pub event_id: String,
    pub cycle_id: String,
    pub work_date: Date,
    pub effective_second_boundary: u64,
    pub event_index: u64,
    pub reward_type: RewardType,
    pub status: LiveRewardStatus,
    pub exact_value: Money,
    pub created_at: Instant,
    pub collected_at: Option<Instant>,
    pub packaged_bag_id: Option<String>,
}

impl Clone for PayrollCycleRecord {
    fn clone(&self) -> (res: Self)
        ensures
            res == *self,
    {
        PayrollCycleRecord {
            cycle_id: self.cycle_id.clone(),
            salary_month: self.salary_month,
            start_date: self.start_date,
            end_date: self.end_date,
            monthly_salary: self.monthly_salary,
            workday_count: self.workday_count,
            daily_pay: self.daily_pay,
            hourly_pay: self.hourly_pay,
            per_second_pay: self.per_second_pay,
            silver_value: self.silver_value,
            gold_value: self.gold_value,
            diamond_value: self.diamond_value,
            timezone: self.timezone.clone(),
            calendar_version: self.calendar_version.clone(),
            created_at: self.created_at,
        }
    }
}

impl Clone for DailyRewardState {
    fn clone(&self) -> (res: Self)
        ensures
            res == *self,
    {
        DailyRewardState {
            cycle_id: self.cycle_id.clone(),
            work_date: self.work_date,
            entitled: self.entitled,
            accounted: self.accounted,
            collected: self.collected,
            updated_at: self.updated_at,
        }
    }
}

impl Clone for OfflineRewardBag {
    fn clone(&self) -> (res: Self)
        ensures
            res == *self,
    {
        OfflineRewardBag {
            bag_id: self.bag_id.clone(),
            cycle_id: self.cycle_id.clone(),
            period_start: self.period_start,
            period_end: self.period_end,
            counts: self.counts,
            exact_value: self.exact_value,
            created_at: self.created_at,
            claimed: self.claimed,
            claimed_at: self.claimed_at,
        }
    }
}

impl Clone for OfflineRewardBagItem {
    fn clone(&self) -> (res: Self)
        ensures
            res == *self,
    {
        OfflineRewardBagItem { bag_id: self.bag_id.clone(), work_date: self.work_date, counts: self.counts }
    }
}

impl Clone for CollectionLedgerEntry {
    fn clone(&self) -> (res: Self)
        ensures
            res == *self,
    {
        CollectionLedgerEntry {
            transaction_id: self.transaction_id.clone(),
            cycle_id: self.cycle_id.clone(),
            source_type: self.source_type.clone(),
            source_id: self.source_id.clone(),
            counts: self.counts,
            exact_value: self.exact_value,
            created_at: self.created_at,
        }
    }
}

impl Clone for LiveRewardEvent {
    fn clone(&self) -> (res: Self)
        ensures
            res == *self,
    {
        let packaged_bag_id = match &self.packaged_bag_id {
            Some(id) => Some(id.clone()),
            None => None,
        };
        LiveRewardEvent {
            event_id: self.event_id.clone(),
            cycle_id: self.cycle_id.clone(),
            work_date: self.work_date,
            effective_second_boundary: self.effective_second_boundary,
            event_index: self.event_index,
            reward_type: self.reward_type,
            status: self.status,
            exact_value: self.exact_value,
            created_at: self.created_at,
            collected_at: self.collected_at,
            packaged_bag_id,
        }
    }
}

} // verus!
