use vstd::prelude::*;

use super::{RewardCounts, RewardType, DIAMOND_WEIGHT, GOLD_WEIGHT};
use crate::domain::payroll::PayrollCycle;
use crate::money::{
    abs, pow10, product_within_range, quotient_close, decimal_product, decimal_quotient,
    Money, MAX_MANTISSA,
};

verus! {

/// Weighted units of one full effective hour: `300 * 1 + 59 * 6 + 1 * 360`.
pub const WEIGHTED_UNITS_PER_HOUR: u64 = 1_014;

pub const REWARD_WORK_HOURS_PER_DAY: u64 = 7;

/// Exact per-cycle denomination values, plus the payroll anchors needed for totals.
#[derive(Clone, Copy, Debug)]
pub struct RewardValues {
    pub silver: Money,
    pub gold: Money,
    pub diamond: Money,
    pub hourly_pay: Money,
    pub daily_pay: Money,
    pub monthly_salary: Money,
    pub workday_count: u32,
}

impl RewardValues {
    pub open spec fn spec_hourly_pay(self) -> (int, nat) {
        self.hourly_pay@
    }

    pub open spec fn spec_daily_pay(self) -> (int, nat) {
        self.daily_pay@
    }

    pub open spec fn spec_monthly_salary(self) -> (int, nat) {
        self.monthly_salary@
    }

    pub open spec fn spec_workday_count(self) -> int {
        self.workday_count as int
    }

    /// The value of a total of reward counts: zero for no events; the monthly salary for the
    /// cycle's full hours; the daily pay times the days for whole days; the hourly pay times
    /// the hours for whole hours; otherwise the hourly pay times the weighted units over 1014.
    pub open spec fn total_value_spec(self, counts: RewardCounts) -> (int, nat) {
        if counts.is_zero() {
            (0, 0)
        } else if let Some(hours) = counts.spec_complete_hours() {
            if hours == self.spec_workday_count() * REWARD_WORK_HOURS_PER_DAY {
                self.spec_monthly_salary()
            } else if hours % REWARD_WORK_HOURS_PER_DAY == 0 {
                decimal_product(
                    self.spec_daily_pay(),
                    (hours as int / REWARD_WORK_HOURS_PER_DAY as int, 0),
                )
            } else {
                decimal_product(self.spec_hourly_pay(), (hours as int, 0))
            }
        } else {
            decimal_quotient(
                decimal_product(self.spec_hourly_pay(), (counts.spec_weighted(), 0)),
                (WEIGHTED_UNITS_PER_HOUR as int, 0),
            )
        }
    }

    /// The multiplication that `total_value` performs stays inside the decimal range.
    pub open spec fn total_value_in_range(self, counts: RewardCounts) -> bool {
        total_in_range(self.hourly_pay@, self.daily_pay@, self.workday_count as int, counts)
    }

    /// The value of one event of a type.
    pub open spec fn value_of_spec(self, reward_type: RewardType) -> (int, nat) {
        match reward_type {
            RewardType::Silver => self.silver@,
            RewardType::Gold => self.gold@,
            RewardType::Diamond => self.diamond@,
        }
    }
}

/// The multiplication that `RewardValues::total_value` performs for `counts`, with the given
/// hourly pay, daily pay and workday count, stays inside the decimal range.
pub open spec fn total_in_range(
    hourly: (int, nat),
    daily: (int, nat),
    workday_count: int,
    counts: RewardCounts,
) -> bool {
    if counts.is_zero() {
        true
    } else if let Some(hours) = counts.spec_complete_hours() {
        if hours == workday_count * REWARD_WORK_HOURS_PER_DAY {
            true
        } else if hours % REWARD_WORK_HOURS_PER_DAY == 0 {
            product_within_range(daily, (hours as int / REWARD_WORK_HOURS_PER_DAY as int, 0))
        } else {
            product_within_range(hourly, (hours as int, 0))
        }
    } else {
        product_within_range(hourly, (counts.spec_weighted(), 0))
    }
}

/// A quotient by 1014 of an amount within the decimal range can be multiplied by 360.
proof fn lemma_small_base_scales(base: (int, nat), hourly: (int, nat))
    requires
        quotient_close(base, hourly, WEIGHTED_UNITS_PER_HOUR as int),
        abs(hourly.0) <= MAX_MANTISSA,
    ensures
        product_within_range(base, (6, 0)),
        product_within_range(base, (360, 0)),
{
    let b = abs(base.0);
    let h = abs(hourly.0);
    let pb = pow10(base.1);
    let ph = pow10(hourly.1);
    lemma_pow10_positive(base.1);
    lemma_pow10_positive(hourly.1);
    assert(pow10(base.1 + 0) == pb);
    assert(b * 360 <= (MAX_MANTISSA - 1) * pb) by (nonlinear_arith)
        requires
            b * 1014 * ph <= (h + 1014 * ph) * pb,
            0 <= h <= MAX_MANTISSA,
            ph >= 1,
            pb >= 1,
            b >= 0,
    {
        assert((h + 1014 * ph) * pb <= (MAX_MANTISSA + 1014) * ph * pb) by (nonlinear_arith)
            requires
                0 <= h <= MAX_MANTISSA,
                ph >= 1,
                pb >= 1,
        ;
        assert(b * 1014 * ph <= (MAX_MANTISSA + 1014) * ph * pb);
        assert(b * 1014 <= (MAX_MANTISSA + 1014) * pb) by (nonlinear_arith)
            requires
                b * 1014 * ph <= (MAX_MANTISSA + 1014) * ph * pb,
                ph >= 1,
        ;
        assert(b * 360 * 1014 <= 360 * (MAX_MANTISSA + 1014) * pb);
        assert(360 * (MAX_MANTISSA + 1014) <= 1014 * (MAX_MANTISSA - 1));
    }
    assert(abs(base.0 * 360) == b * 360);
    assert(abs(base.0 * 6) == b * 6);
}

pub proof fn lemma_pow10_positive(n: nat)
    ensures
        pow10(n) >= 1,
    decreases n,
{
    if n > 0 {
        lemma_pow10_positive((n - 1) as nat);
    }
}

impl RewardValues {
    /// These are the values `for_cycle` derives for `cycle`.
    pub open spec fn derived_from(self, cycle: PayrollCycle) -> bool {
        &&& self.silver@ == decimal_quotient(self.spec_hourly_pay(), (WEIGHTED_UNITS_PER_HOUR as int, 0))
        &&& self.gold@ == decimal_product(self.silver@, (GOLD_WEIGHT as int, 0))
        &&& self.diamond@ == decimal_product(self.silver@, (DIAMOND_WEIGHT as int, 0))
        &&& self.spec_hourly_pay() == cycle.pay_rates_spec().1
        &&& self.spec_daily_pay() == cycle.pay_rates_spec().0
        &&& self.spec_monthly_salary() == cycle.monthly_salary@
        &&& self.spec_workday_count() == cycle.workday_count
    }

    /// The denomination values of a cycle: Silver is the hourly pay over 1014, Gold six
    /// Silvers and Diamond 360 Silvers.
    pub fn for_cycle(cycle: &PayrollCycle) -> (res: RewardValues)
        requires
            cycle.workday_count > 0,
        ensures
            res.silver@ == decimal_quotient(
                res.spec_hourly_pay(),
                (WEIGHTED_UNITS_PER_HOUR as int, 0),
            ),
            res.gold@ == decimal_product(res.silver@, (GOLD_WEIGHT as int, 0)),
            res.diamond@ == decimal_product(res.silver@, (DIAMOND_WEIGHT as int, 0)),
            res.spec_hourly_pay() == cycle.pay_rates_spec().1,
            res.spec_daily_pay() == cycle.pay_rates_spec().0,
            res.spec_monthly_salary() == cycle.monthly_salary@,
            res.spec_workday_count() == cycle.workday_count,
            res.derived_from(*cycle),
    {
        let rates = cycle.pay_rates();
        let base = rates.hourly.checked_div(Money::from_u64(WEIGHTED_UNITS_PER_HOUR)).unwrap();
        proof {
            use_type_invariant(&rates.hourly);
            lemma_small_base_scales(base@, rates.hourly@);
        }
        let gold = base.checked_mul(Money::from_u64(GOLD_WEIGHT)).unwrap();
        let diamond = base.checked_mul(Money::from_u64(DIAMOND_WEIGHT)).unwrap();
        RewardValues {
            silver: base,
            gold,
            diamond,
            hourly_pay: rates.hourly,
            daily_pay: rates.daily,
            monthly_salary: cycle.monthly_salary,
            workday_count: cycle.workday_count,
        }
    }

    /// The value of a total of reward counts, computed from the payroll anchors rather than
    /// by summing denomination values. `None` when the multiplication would leave the
    /// decimal range (where `Decimal` multiplication panics).
    pub fn total_value(self, counts: RewardCounts) -> (res: Option<Money>)
        ensures
            res matches Some(v) ==> v@ == self.total_value_spec(counts),
            self.total_value_in_range(counts) ==> res is Some,
    {
        if counts.silver == 0 && counts.gold == 0 && counts.diamond == 0 {
            return Some(Money::zero());
        }
        if let Some(hours) = counts.complete_hours() {
            let cycle_hours: u64 = self.workday_count as u64 * REWARD_WORK_HOURS_PER_DAY;
            if hours == cycle_hours {
                return Some(self.monthly_salary);
            }
            if hours % REWARD_WORK_HOURS_PER_DAY == 0 {
                return self.daily_pay.checked_mul(
                    Money::from_u64(hours / REWARD_WORK_HOURS_PER_DAY),
                );
            }
            return self.hourly_pay.checked_mul(Money::from_u64(hours));
        }
        // Decimal cannot represent division by 1014 exactly for every salary: totals come from
        // the unrounded hourly anchor and the weighted units, not from summing the rounded
        // denomination values. Whole-hour, whole-day and whole-cycle totals above use their
        // payroll anchors so that those invariants stay exact.
        match self.hourly_pay.checked_mul(counts.weighted_units()) {
            Some(product) => Some(
                product.checked_div(Money::from_u64(WEIGHTED_UNITS_PER_HOUR)).unwrap(),
            ),
            None => None,
        }
    }

    /// The value of one event of a type.
    pub fn value_for(self, reward_type: RewardType) -> (res: Money)
        ensures
            res@ == self.value_of_spec(reward_type),
    {
        match reward_type {
            RewardType::Silver => self.silver,
            RewardType::Gold => self.gold,
            RewardType::Diamond => self.diamond,
        }
    }

    pub fn hourly_pay(&self) -> (res: Money)
        ensures
            res@ == self.spec_hourly_pay(),
    {
        self.hourly_pay
    }

    pub fn daily_pay(&self) -> (res: Money)
        ensures
            res@ == self.spec_daily_pay(),
    {
        self.daily_pay
    }
}

} // verus!
