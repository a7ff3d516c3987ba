use vstd::prelude::*;

use super::{
    counts_for_seconds, counts_of_seconds, event_type_spec, RewardCounts, RewardType, RewardValues,
    WEIGHTED_UNITS_PER_HOUR,
};
use crate::domain::payroll::PayrollCycle;
use crate::money::{pow10, abs, decimal_product, decimal_quotient, exact_product, money_value_eq, money_wf, MAX_MANTISSA, MAX_SCALE};

verus! {

/// Seconds of events counted: one event per whole ten seconds.
pub proof fn law_total_events_per_ten_seconds(s: int)
    requires
        s >= 0,
    ensures
        counts_for_seconds(s).0 + counts_for_seconds(s).1 + counts_for_seconds(s).2 == s / 10,
{
}

/// Crossing the next ten-second boundary adds exactly one event, of the type of that
/// boundary: Diamond on a whole hour, Gold on a whole minute, Silver otherwise. So the
/// entitlement of `10 * n` seconds is the events `1..=n`, in order.
pub proof fn law_next_boundary_adds_its_event(n: int)
    requires
        n >= 0,
        (n + 1) * 10 <= u64::MAX,
    ensures
        event_type_spec(n + 1) is Some,
        counts_for_seconds(10 * (n + 1)).0 == counts_for_seconds(10 * n).0 + event_type_spec(
            n + 1,
        ).unwrap().unit_triple().0,
        counts_for_seconds(10 * (n + 1)).1 == counts_for_seconds(10 * n).1 + event_type_spec(
            n + 1,
        ).unwrap().unit_triple().1,
        counts_for_seconds(10 * (n + 1)).2 == counts_for_seconds(10 * n).2 + event_type_spec(
            n + 1,
        ).unwrap().unit_triple().2,
{
    let x = 10 * n;
    let b = x + 10;
    assert(b == (n + 1) * 10);
    assert(b / 10 == x / 10 + 1);
    assert(b / 60 == x / 60 + if b % 60 == 0 {
        1int
    } else {
        0int
    });
    assert(b / 3600 == x / 3600 + if b % 3600 == 0 {
        1int
    } else {
        0int
    });
    assert(b % 3600 == 0 ==> b % 60 == 0);
}

/// Between boundaries nothing changes: the entitlement of `s` seconds is that of the last
/// ten-second boundary at or before `s`.
pub proof fn law_counts_only_change_on_boundaries(s: int)
    requires
        s >= 0,
    ensures
        counts_for_seconds(s) == counts_for_seconds(10 * (s / 10)),
{
    let f = 10 * (s / 10);
    assert(f / 10 == s / 10);
    assert(f / 60 == s / 60);
    assert(f / 3600 == s / 3600);
}

/// `h` complete effective hours entitle exactly `300 h` Silver, `59 h` Gold and `h` Diamond.
pub proof fn law_complete_hours_counts(h: int)
    requires
        h >= 0,
    ensures
        counts_for_seconds(3600 * h) == (300 * h, 59 * h, h),
{
    assert((3600 * h) / 10 == 360 * h);
    assert((3600 * h) / 60 == 60 * h);
    assert((3600 * h) / 3600 == h);
}

/// The entitlement never decreases as effective seconds accumulate.
pub proof fn law_counts_monotonic(s1: int, s2: int)
    requires
        0 <= s1 <= s2,
        s2 <= u64::MAX,
    ensures
        counts_for_seconds(s1).0 <= counts_for_seconds(s2).0,
        counts_for_seconds(s1).1 <= counts_for_seconds(s2).1,
        counts_for_seconds(s1).2 <= counts_for_seconds(s2).2,
    decreases s2 - s1,
{
    law_counts_only_change_on_boundaries(s1);
    law_counts_only_change_on_boundaries(s2);
    let n1 = s1 / 10;
    let n2 = s2 / 10;
    if n1 < n2 {
        law_next_boundary_adds_its_event(n2 - 1);
        law_counts_monotonic(10 * n1, 10 * (n2 - 1));
    }
}

/// The value of one complete effective hour of rewards is the hourly pay.
pub proof fn law_hour_value_is_hourly_pay(values: RewardValues)
    requires
        money_wf(values.hourly_pay@),
    ensures
        money_value_eq(values.total_value_spec(counts_of_seconds(3600)), values.hourly_pay@),
        values.hourly_pay@.0 != 0 ==> values.total_value_spec(counts_of_seconds(3600))
            == values.hourly_pay@,
{
    law_complete_hours_counts(1);
    let c = counts_of_seconds(3600);
    assert(c.silver == 300 && c.gold == 59 && c.diamond == 1);
    assert(!c.is_zero());
    assert(c.spec_complete_hours() == Some(1u64));
    assert(values.workday_count * 7 != 1);
    let h = values.hourly_pay@;
    assert(abs(h.0 * 1) <= MAX_MANTISSA);
    assert(values.total_value_spec(c) == decimal_product(h, (1, 0)));
    assert(decimal_product(h, (1, 0)) == exact_product(h, (1, 0)));
    lemma_unit_product_value(h);
}

/// The value of one complete workday of rewards is the daily pay, or the whole monthly
/// salary when the cycle has a single workday.
pub proof fn law_day_value_is_daily_pay(values: RewardValues)
    requires
        money_wf(values.daily_pay@),
    ensures
        values.workday_count == 1 ==> values.total_value_spec(counts_of_seconds(25_200))
            == values.monthly_salary@,
        values.workday_count != 1 ==> money_value_eq(
            values.total_value_spec(counts_of_seconds(25_200)),
            values.daily_pay@,
        ),
        values.workday_count != 1 && values.daily_pay@.0 != 0 ==> values.total_value_spec(
            counts_of_seconds(25_200),
        ) == values.daily_pay@,
{
    law_complete_hours_counts(7);
    let c = counts_of_seconds(25_200);
    assert(c.silver == 2100 && c.gold == 413 && c.diamond == 7);
    assert(!c.is_zero());
    assert(c.spec_complete_hours() == Some(7u64));
    assert(values.workday_count != 1 ==> values.workday_count * 7 != 7);
    let d = values.daily_pay@;
    assert(abs(d.0 * 1) <= MAX_MANTISSA);
    if values.workday_count != 1 {
        assert(values.total_value_spec(c) == decimal_product(d, (1, 0)));
        assert(decimal_product(d, (1, 0)) == exact_product(d, (1, 0)));
        lemma_unit_product_value(d);
    }
}

/// Multiplying by one gives the same number.
proof fn lemma_unit_product_value(a: (int, nat))
    ensures
        money_value_eq(exact_product(a, (1, 0)), a),
        a.0 != 0 ==> exact_product(a, (1, 0)) == a,
{
    if a.0 == 0 {
        assert(exact_product(a, (1, 0)) == (0int, 0nat));
        assert(0 * pow10(a.1) == 0);
        assert(pow10(0) == 1);
    } else {
        assert(a.0 * 1 == a.0);
    }
}

/// The value of all the cycle's effective seconds of rewards is exactly the monthly salary.
pub proof fn law_cycle_value_is_monthly_salary(values: RewardValues)
    requires
        values.workday_count > 0,
    ensures
        values.total_value_spec(counts_of_seconds((values.workday_count * 25_200) as u64))
            == values.monthly_salary@,
{
    let h = values.workday_count * 7;
    law_complete_hours_counts(h);
    assert(3600 * h == values.workday_count * 25_200);
    assert(counts_of_seconds((values.workday_count * 25_200) as u64).spec_complete_hours() == Some(
        h as u64,
    ));
}

/// One event is worth its denomination's weight in Silvers: a Silver is worth the cycle's
/// hourly pay over 1014, a Gold six Silvers and a Diamond 360 Silvers (exactly, where the
/// product fits the decimal range).
pub proof fn law_event_value_is_its_weight_in_silvers(values: RewardValues, cycle: PayrollCycle)
    requires
        values.derived_from(cycle),
    ensures
        values.value_of_spec(RewardType::Silver) == decimal_quotient(
            cycle.pay_rates_spec().1,
            (WEIGHTED_UNITS_PER_HOUR as int, 0),
        ),
        values.value_of_spec(RewardType::Gold) == decimal_product(values.value_of_spec(RewardType::Silver), (6, 0)),
        values.value_of_spec(RewardType::Diamond) == decimal_product(
            values.value_of_spec(RewardType::Silver),
            (360, 0),
        ),
        values.value_of_spec(RewardType::Silver).1 <= MAX_SCALE && abs(values.value_of_spec(RewardType::Silver).0 * 6)
            <= MAX_MANTISSA ==> money_value_eq(
            values.value_of_spec(RewardType::Gold),
            (values.value_of_spec(RewardType::Silver).0 * 6, values.value_of_spec(RewardType::Silver).1),
        ),
        values.value_of_spec(RewardType::Silver).1 <= MAX_SCALE && abs(values.value_of_spec(RewardType::Silver).0 * 360)
            <= MAX_MANTISSA ==> money_value_eq(
            values.value_of_spec(RewardType::Diamond),
            (values.value_of_spec(RewardType::Silver).0 * 360, values.value_of_spec(RewardType::Silver).1),
        ),
{
    let s = values.silver@;
    assert(pow10(0) == 1) by {
        reveal_with_fuel(pow10, 1);
    }
    assert(0 * pow10(s.1) == 0);
}

} // verus!
