use vstd::prelude::*;

use super::{counts_for_seconds, counts_of_seconds, total_in_range, RewardCounts, RewardValues};
use crate::domain::payroll::{PayrollCycle, PayrollSnapshot};
use crate::money::Money;

verus! {

/// The reward entitlement of some effective work seconds, with the cycle's values.
#[derive(Clone, Copy, Debug)]
pub struct RewardSnapshot {
    pub effective_work_seconds: u64,
    pub counts: RewardCounts,
    pub values: RewardValues,
    pub total_value: Money,
}

/// The reward snapshot of `effective_work_seconds` in `cycle`. `None` when the total value
/// would leave the decimal range (where `Decimal` multiplication panics).
pub fn calculate_reward_snapshot(cycle: &PayrollCycle, effective_work_seconds: u64) -> (res: Option<
    RewardSnapshot,
>)
    requires
        cycle.workday_count > 0,
    ensures
        res matches Some(r) ==> {
            &&& r.effective_work_seconds == effective_work_seconds
            &&& r.counts.spec_triple() == counts_for_seconds(effective_work_seconds as int)
            &&& r.values.spec_hourly_pay() == cycle.pay_rates_spec().1
            &&& r.values.spec_daily_pay() == cycle.pay_rates_spec().0
            &&& r.values.spec_monthly_salary() == cycle.monthly_salary@
            &&& r.values.spec_workday_count() == cycle.workday_count
            &&& r.total_value@ == r.values.total_value_spec(r.counts)
            &&& r.values.derived_from(*cycle)
        },
        res is None ==> !total_in_range(
            cycle.pay_rates_spec().1,
            cycle.pay_rates_spec().0,
            cycle.workday_count as int,
            counts_of_seconds(effective_work_seconds),
        ),
{
    let counts = RewardCounts::from_work_seconds(effective_work_seconds);
    let values = RewardValues::for_cycle(cycle);
    match values.total_value(counts) {
        Some(total_value) => Some(RewardSnapshot { effective_work_seconds, counts, values, total_value }),
        None => None,
    }
}

/// The reward snapshot of a payroll snapshot's effective seconds today.
pub fn reward_snapshot_from_payroll(cycle: &PayrollCycle, payroll: &PayrollSnapshot) -> (res: Option<
    RewardSnapshot,
>)
    requires
        cycle.workday_count > 0,
    ensures
        res matches Some(r) ==> {
            &&& r.effective_work_seconds == payroll.effective_work_seconds_today
            &&& r.counts.spec_triple() == counts_for_seconds(
                payroll.effective_work_seconds_today as int,
            )
            &&& r.values.spec_hourly_pay() == cycle.pay_rates_spec().1
            &&& r.values.spec_daily_pay() == cycle.pay_rates_spec().0
            &&& r.values.spec_monthly_salary() == cycle.monthly_salary@
            &&& r.values.spec_workday_count() == cycle.workday_count
            &&& r.total_value@ == r.values.total_value_spec(r.counts)
            &&& r.values.derived_from(*cycle)
        },
        res is None ==> !total_in_range(
            cycle.pay_rates_spec().1,
            cycle.pay_rates_spec().0,
            cycle.workday_count as int,
            counts_of_seconds(payroll.effective_work_seconds_today as u64),
        ),
{
    calculate_reward_snapshot(cycle, payroll.effective_work_seconds_today as u64)
}

} // verus!
