use vstd::prelude::*;

use super::{
    for_month_spec, next_month_start_spec, completed_workdays_spec, elapsed_seconds_spec, proportional_salary_spec, spec_effective_seconds,
    today_seconds_spec, total_cycle_seconds, work_end_secs, PayrollCycle, WorkCalendar,
    WORK_SECONDS_PER_DAY,
};
use crate::money::money_value_eq;
use crate::time::spec_date_from_ymd;

verus! {

/// Counting workdays up to a later day never gives less.
pub proof fn lemma_count_workdays_monotonic(calendar: WorkCalendar, lo: int, hi1: int, hi2: int)
    requires
        hi1 <= hi2,
    ensures
        calendar.count_workdays(lo, hi1) <= calendar.count_workdays(lo, hi2),
    decreases hi2 - hi1,
{
    if hi1 < hi2 {
        lemma_count_workdays_monotonic(calendar, lo, hi1, hi2 - 1);
        if hi2 < lo {
        } else {
            assert(calendar.count_workdays(lo, hi2) >= calendar.count_workdays(lo, hi2 - 1));
        }
    }
}

/// On a day of the cycle, the effective seconds of that day never exceed one full day, and
/// are zero unless the day is a workday.
proof fn lemma_today_seconds_bounds(cycle: PayrollCycle, calendar: WorkCalendar, day: int, secs: int)
    ensures
        0 <= today_seconds_spec(cycle, calendar, day, secs) <= WORK_SECONDS_PER_DAY,
        !calendar.spec_is_workday(day) ==> today_seconds_spec(cycle, calendar, day, secs) == 0,
{
}

/// The cycle's elapsed effective seconds through the end of `day`.
proof fn lemma_elapsed_within_day(cycle: PayrollCycle, calendar: WorkCalendar, day: int, secs: int)
    requires
        cycle.framed_by(calendar),
        cycle.start_date@ <= day <= cycle.end_date@,
    ensures
        elapsed_seconds_spec(cycle, calendar, day, secs) <= calendar.count_workdays(
            cycle.start_date@,
            day,
        ) * WORK_SECONDS_PER_DAY,
        completed_workdays_spec(cycle, calendar, day) * WORK_SECONDS_PER_DAY <= elapsed_seconds_spec(
            cycle,
            calendar,
            day,
            secs,
        ),
{
    lemma_today_seconds_bounds(cycle, calendar, day, secs);
}

/// The elapsed effective seconds of a cycle never decrease as time goes on.
pub proof fn law_elapsed_seconds_monotonic(
    cycle: PayrollCycle,
    calendar: WorkCalendar,
    day1: int,
    secs1: int,
    day2: int,
    secs2: int,
)
    requires
        cycle.framed_by(calendar),
        day1 < day2 || (day1 == day2 && secs1 <= secs2),
    ensures
        elapsed_seconds_spec(cycle, calendar, day1, secs1) <= elapsed_seconds_spec(
            cycle,
            calendar,
            day2,
            secs2,
        ),
{
    let start = cycle.start_date@;
    let end = cycle.end_date@;
    let e1 = elapsed_seconds_spec(cycle, calendar, day1, secs1);
    let e2 = elapsed_seconds_spec(cycle, calendar, day2, secs2);
    if day1 == day2 {
        if start <= day1 <= end {
            assert(spec_effective_seconds(calendar, day1, secs1) <= spec_effective_seconds(
                calendar,
                day1,
                secs2,
            ));
            assert(e1 <= e2);
        } else {
            assert(e1 <= e2);
        }
    } else if day1 < start {
        if start <= day2 <= end {
            lemma_elapsed_within_day(cycle, calendar, day2, secs2);
            crate::domain::payroll::lemma_count_workdays_bounds(calendar, start, day2 - 1);
            assert(e1 <= e2);
        } else {
            assert(e1 <= e2);
        }
    } else if day1 > end {
        assert(e1 <= e2);
    } else {
        lemma_elapsed_within_day(cycle, calendar, day1, secs1);
        if day2 <= end {
            lemma_elapsed_within_day(cycle, calendar, day2, secs2);
            lemma_count_workdays_monotonic(calendar, start, day1, day2 - 1);
            assert(e1 <= e2);
        } else {
            lemma_count_workdays_monotonic(calendar, start, day1, end);
            assert(e1 <= e2);
        }
    }
}

/// The elapsed effective seconds of a cycle never exceed its total.
pub proof fn law_elapsed_seconds_bounded(
    cycle: PayrollCycle,
    calendar: WorkCalendar,
    day: int,
    secs: int,
)
    requires
        cycle.framed_by(calendar),
    ensures
        0 <= elapsed_seconds_spec(cycle, calendar, day, secs) <= total_cycle_seconds(cycle),
{
    let start = cycle.start_date@;
    let end = cycle.end_date@;
    if start <= day <= end {
        lemma_elapsed_within_day(cycle, calendar, day, secs);
        lemma_count_workdays_monotonic(calendar, start, day, end);
        crate::domain::payroll::lemma_count_workdays_bounds(calendar, start, day - 1);
    }
}

/// Once the cycle's last workday has ended, or the cycle is over, the cycle's elapsed
/// effective seconds are its total and the real salary earned in the cycle is exactly the
/// monthly salary.
pub proof fn law_cycle_earned_at_end_is_monthly_salary(
    cycle: PayrollCycle,
    calendar: WorkCalendar,
    day: int,
    secs: int,
)
    requires
        cycle.framed_by(calendar),
        day > cycle.end_date@ || (day == cycle.end_date@ && secs >= work_end_secs()),
    ensures
        elapsed_seconds_spec(cycle, calendar, day, secs) == total_cycle_seconds(cycle),
        money_value_eq(
            proportional_salary_spec(
                cycle.monthly_salary@,
                elapsed_seconds_spec(cycle, calendar, day, secs),
                total_cycle_seconds(cycle),
            ),
            cycle.monthly_salary@,
        ),
        cycle.monthly_salary@.0 != 0 ==> proportional_salary_spec(
            cycle.monthly_salary@,
            elapsed_seconds_spec(cycle, calendar, day, secs),
            total_cycle_seconds(cycle),
        ) == cycle.monthly_salary@,
{
    if day == cycle.end_date@ {
        assert(calendar.count_workdays(cycle.start_date@, day) == calendar.count_workdays(
            cycle.start_date@,
            day - 1,
        ) + 1);
    }
    let m = cycle.monthly_salary@;
    assert(elapsed_seconds_spec(cycle, calendar, day, secs) == total_cycle_seconds(cycle));
    assert(total_cycle_seconds(cycle) > 0) by (nonlinear_arith)
        requires
            cycle.workday_count > 0,
            total_cycle_seconds(cycle) == cycle.workday_count * WORK_SECONDS_PER_DAY,
    ;
    if m.0 == 0 {
        assert(0 * crate::money::pow10(m.1) == 0);
        assert(m.0 * crate::money::pow10(0) == 0);
    }
}

/// Days without a workday before `s` add nothing to a count of workdays from `lo`.
pub proof fn lemma_count_skip_prefix(calendar: WorkCalendar, lo: int, s: int, hi: int)
    requires
        lo <= s,
        forall|d: int| lo <= d < s ==> !#[trigger] calendar.spec_is_workday(d),
    ensures
        calendar.count_workdays(lo, hi) == calendar.count_workdays(s, hi),
    decreases hi - lo + 1,
{
    if hi >= lo {
        lemma_count_skip_prefix(calendar, lo, s, hi - 1);
        if hi < s {
            assert(!calendar.spec_is_workday(hi));
        }
    }
}

/// Days without a workday after `e` add nothing to a count of workdays through `hi`.
pub proof fn lemma_count_skip_suffix(calendar: WorkCalendar, lo: int, e: int, hi: int)
    requires
        e <= hi,
        forall|d: int| e < d <= hi ==> !#[trigger] calendar.spec_is_workday(d),
    ensures
        calendar.count_workdays(lo, hi) == calendar.count_workdays(lo, e),
    decreases hi - e,
{
    if hi > e {
        lemma_count_skip_suffix(calendar, lo, e, hi - 1);
        assert(!calendar.spec_is_workday(hi));
    }
}

/// The payroll cycle of a month holds exactly the month's workdays: it starts on the first
/// workday on or after the first day of the month (no workday of the month lies before
/// it), ends on the month's last workday (none lies after it in the month), and its
/// workday count is the number of workdays of the whole month.
pub proof fn law_cycle_covers_the_months_workdays(
    calendar: WorkCalendar,
    year: i32,
    month: u32,
    salary: (int, nat),
)
    ensures
        for_month_spec(calendar, year, month, salary) matches Ok(t) ==> {
            let next = next_month_start_spec(year, month)->0;
            &&& spec_date_from_ymd(year as int, month as int, 1) == Some(t.0)
            &&& next_month_start_spec(year, month) is Some
            &&& t.0 <= t.1 <= t.2 < next
            &&& calendar.spec_is_workday(t.1)
            &&& calendar.spec_is_workday(t.2)
            &&& forall|d: int| t.0 <= d < t.1 ==> !#[trigger] calendar.spec_is_workday(d)
            &&& forall|d: int| t.2 < d < next ==> !#[trigger] calendar.spec_is_workday(d)
            &&& t.3 == calendar.count_workdays(t.0, next - 1)
            &&& t.3 > 0
        },
{
    match for_month_spec(calendar, year, month, salary) {
        Ok(t) => {
            let month_start = spec_date_from_ymd(year as int, month as int, 1)->0;
            let next = next_month_start_spec(year, month)->0;
            let prev = calendar.last_workday_before_spec(month_start)->0;
            assert(calendar.is_last_workday_before(month_start, prev));
            assert(calendar.is_first_workday_after(prev, t.1));
            assert(calendar.is_last_workday_before(next, t.2));
            assert forall|d: int| t.0 <= d < t.1 implies !#[trigger] calendar.spec_is_workday(d) by {
                assert(prev < d);
            }
            lemma_count_skip_prefix(calendar, month_start, t.1, next - 1);
            lemma_count_skip_suffix(calendar, t.1, t.2, next - 1);
            crate::domain::payroll::lemma_count_workdays_bounds(calendar, t.1, t.2);
        },
        Err(_) => {},
    }
}

/// Only the cycle's own days accrue to it: on a day outside the cycle the effective
/// seconds of today count as zero and nothing is earned today, and on a day of the cycle
/// they are the day's effective seconds of work.
pub proof fn law_only_days_of_the_cycle_accrue(cycle: PayrollCycle, calendar: WorkCalendar, day: int, secs: int)
    ensures
        day < cycle.start_date@ || day > cycle.end_date@ ==> today_seconds_spec(cycle, calendar, day, secs) == 0
            && proportional_salary_spec(
            cycle.monthly_salary@,
            today_seconds_spec(cycle, calendar, day, secs),
            total_cycle_seconds(cycle),
        ) == (0int, 0nat),
        cycle.start_date@ <= day <= cycle.end_date@ ==> today_seconds_spec(cycle, calendar, day, secs)
            == spec_effective_seconds(calendar, day, secs),
{
}

} // verus!
