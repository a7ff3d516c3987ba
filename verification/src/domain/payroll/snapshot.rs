use vstd::prelude::*;

use super::{
    effective_work_seconds, spec_effective_seconds, spec_work_status, work_status, PayrollCycle,
    PayrollError, WorkCalendar, WorkStatus, WORK_SECONDS_PER_DAY,
};
use crate::money::{
    abs, exact_product, pow10, product_within_range, decimal_product, decimal_quotient,
    Money, MAX_MANTISSA,
};
use crate::time::{spec_local_parts, Instant, LocalDateTime};

verus! {

/// The payroll truth at one instant: local time, work status, effective seconds of today
/// and the real salary earned today and in the cycle so far.
#[derive(Debug)]
pub struct PayrollSnapshot {
    pub local_datetime: LocalDateTime,
    pub work_status: WorkStatus,
    pub effective_work_seconds_today: u32,
    pub completed_workdays_before_today: u32,
    pub today_earned: Money,
    pub cycle_earned: Money,
}

/// `monthly * elapsed / total`, with zero when nothing elapsed and the full salary once
/// everything has.
pub open spec fn proportional_salary_spec(monthly: (int, nat), elapsed: int, total: int) -> (int, nat) {
    if elapsed == 0 || monthly.0 == 0 {
        (0, 0)
    } else if elapsed >= total {
        monthly
    } else {
        decimal_quotient(decimal_product(monthly, (elapsed, 0)), (total, 0))
    }
}

/// Effective seconds of a cycle's full workdays.
pub open spec fn total_cycle_seconds(cycle: PayrollCycle) -> int {
    cycle.workday_count * WORK_SECONDS_PER_DAY
}

/// The effective seconds of `day` at `secs` that count toward the cycle.
pub open spec fn today_seconds_spec(cycle: PayrollCycle, calendar: WorkCalendar, day: int, secs: int) -> int {
    if cycle.start_date@ <= day <= cycle.end_date@ {
        spec_effective_seconds(calendar, day, secs)
    } else {
        0
    }
}

/// The cycle's workdays completed before `day`.
pub open spec fn completed_workdays_spec(cycle: PayrollCycle, calendar: WorkCalendar, day: int) -> int {
    if day < cycle.start_date@ {
        0
    } else if day > cycle.end_date@ {
        cycle.workday_count as int
    } else {
        calendar.count_workdays(cycle.start_date@, day - 1)
    }
}

/// The cycle's effective seconds elapsed at `secs` on `day`.
pub open spec fn elapsed_seconds_spec(cycle: PayrollCycle, calendar: WorkCalendar, day: int, secs: int) -> int {
    if day < cycle.start_date@ {
        0
    } else if day > cycle.end_date@ {
        total_cycle_seconds(cycle)
    } else {
        completed_workdays_spec(cycle, calendar, day) * WORK_SECONDS_PER_DAY + today_seconds_spec(
            cycle,
            calendar,
            day,
            secs,
        )
    }
}

/// The cycle's salary times today's and the cycle's elapsed effective seconds at `at_utc`
/// stays in the decimal range wherever the proportion is not short-cut (past it, `Decimal`
/// multiplication panics).
pub open spec fn salary_scalable_at(cycle: PayrollCycle, calendar: WorkCalendar, at_utc: Instant) -> bool {
    let (day, secs) = spec_local_parts(at_utc@.0, at_utc@.1, cycle.timezone@);
    let total = total_cycle_seconds(cycle);
    let today = today_seconds_spec(cycle, calendar, day, secs);
    let elapsed = elapsed_seconds_spec(cycle, calendar, day, secs);
    &&& (today < total ==> product_within_range(cycle.monthly_salary@, (today, 0)))
    &&& (elapsed < total ==> product_within_range(cycle.monthly_salary@, (elapsed, 0)))
}

/// Where the clock stands in a cycle.
struct Progress {
    local_datetime: LocalDateTime,
    status: WorkStatus,
    today: u32,
    completed: u32,
    elapsed: u64,
    total: u64,
}

/// Local time, work status, today's effective seconds, completed workdays and elapsed
/// effective seconds of the cycle at `at_utc`.
fn progress(cycle: &PayrollCycle, calendar: &WorkCalendar, at_utc: Instant) -> (res: Progress)
    ensures
        ({
            let (day, secs) = spec_local_parts(at_utc@.0, at_utc@.1, cycle.timezone@);
            &&& res.local_datetime.instant == at_utc
            &&& res.local_datetime.zone@ == cycle.timezone@
            &&& res.local_datetime.date@ == day
            &&& res.local_datetime.time@ == secs
            &&& res.status == spec_work_status(*calendar, day, secs)
            &&& res.today as int == today_seconds_spec(*cycle, *calendar, day, secs)
            &&& res.completed as int == completed_workdays_spec(*cycle, *calendar, day)
            &&& res.elapsed as int == elapsed_seconds_spec(*cycle, *calendar, day, secs)
            &&& res.total as int == total_cycle_seconds(*cycle)
        }),
{
    let local_datetime = at_utc.in_zone(&cycle.timezone);
    let local_date = local_datetime.date;
    let local_time = local_datetime.time;
    let status = work_status(local_date, local_time, calendar);

    let within_cycle = !local_date.is_before(&cycle.start_date) && !cycle.end_date.is_before(
        &local_date,
    );
    let effective_seconds_today: u32 = if within_cycle {
        effective_work_seconds(local_date, local_time, calendar)
    } else {
        0
    };

    let total_cycle_seconds: u64 = cycle.workday_count as u64 * WORK_SECONDS_PER_DAY as u64;
    let completed_workdays_before_today: u32;
    let elapsed_effective_seconds: u64;
    if local_date.is_before(&cycle.start_date) {
        completed_workdays_before_today = 0;
        elapsed_effective_seconds = 0;
    } else if cycle.end_date.is_before(&local_date) {
        completed_workdays_before_today = cycle.workday_count;
        elapsed_effective_seconds = total_cycle_seconds;
    } else {
        let completed = match local_date.pred() {
            Some(yesterday) => match calendar.workdays_inclusive(cycle.start_date, yesterday) {
                Ok(n) => n,
                Err(_) => 0,
            },
            None => {
                proof {
                    use_type_invariant(&cycle.start_date);
                    assert(calendar.count_workdays(cycle.start_date@, local_date@ - 1) == 0);
                }
                0
            },
        };
        proof {
            crate::domain::payroll::lemma_count_workdays_bounds(
                *calendar,
                cycle.start_date@,
                local_date@ - 1,
            );
        }
        completed_workdays_before_today = completed;
        elapsed_effective_seconds = completed as u64 * WORK_SECONDS_PER_DAY as u64
            + effective_seconds_today as u64;
    }
    Progress {
        local_datetime,
        status,
        today: effective_seconds_today,
        completed: completed_workdays_before_today,
        elapsed: elapsed_effective_seconds,
        total: total_cycle_seconds,
    }
}

proof fn lemma_product_within_range_smaller(m: (int, nat), small: int, big: int)
    requires
        0 <= small <= big,
        product_within_range(m, (big, 0)),
    ensures
        product_within_range(m, (small, 0)),
{
    assert(abs(m.0 * small) <= abs(m.0 * big)) by (nonlinear_arith)
        requires
            0 <= small <= big,
    ;
}

/// `monthly * elapsed / total`, exact at both ends.
fn proportional_salary(monthly_salary: Money, elapsed: u64, total: u64) -> (res: Money)
    requires
        elapsed < total ==> product_within_range(monthly_salary@, (elapsed as int, 0)),
    ensures
        res@ == proportional_salary_spec(monthly_salary@, elapsed as int, total as int),
{
    if elapsed == 0 || monthly_salary.is_zero() {
        Money::zero()
    } else if elapsed >= total {
        // This explicit terminal branch keeps the full-cycle invariant exact even when an
        // intermediate rate has a repeating decimal expansion.
        monthly_salary
    } else {
        let product = monthly_salary.checked_mul(Money::from_u64(elapsed)).unwrap();
        product.checked_div(Money::from_u64(total)).unwrap()
    }
}

/// The payroll truth at `at_utc`, derived from the clock, the cycle and the calendar alone.
pub fn calculate_payroll_snapshot(
    cycle: &PayrollCycle,
    calendar: &WorkCalendar,
    at_utc: Instant,
) -> (res: Result<PayrollSnapshot, PayrollError>)
    requires
        cycle.calendar_version@ == calendar.version_view() ==> salary_scalable_at(*cycle, *calendar, at_utc),
    ensures
        cycle.calendar_version@ != calendar.version_view() <==> res is Err,
        res matches Err(e) ==> (e matches PayrollError::CalendarVersionMismatch {
            cycle_version,
            calendar_version,
        } && cycle_version@ == cycle.calendar_version@ && calendar_version@
            == calendar.version_view()),
        res matches Ok(s) ==> {
            let (day, secs) = spec_local_parts(at_utc@.0, at_utc@.1, cycle.timezone@);
            &&& s.local_datetime.instant == at_utc
            &&& s.local_datetime.zone@ == cycle.timezone@
            &&& s.local_datetime.date@ == day
            &&& s.local_datetime.time@ == secs
            &&& s.work_status == spec_work_status(*calendar, day, secs)
            &&& s.effective_work_seconds_today as int == today_seconds_spec(
                *cycle,
                *calendar,
                day,
                secs,
            )
            &&& s.completed_workdays_before_today as int == completed_workdays_spec(
                *cycle,
                *calendar,
                day,
            )
            &&& (day < cycle.start_date@ || day > cycle.end_date@ ==> s.effective_work_seconds_today == 0
                && s.today_earned@ == (0int, 0nat))
            &&& s.today_earned@ == proportional_salary_spec(
                cycle.monthly_salary@,
                today_seconds_spec(*cycle, *calendar, day, secs),
                total_cycle_seconds(*cycle),
            )
            &&& s.cycle_earned@ == proportional_salary_spec(
                cycle.monthly_salary@,
                elapsed_seconds_spec(*cycle, *calendar, day, secs),
                total_cycle_seconds(*cycle),
            )
        },
{
    let version = calendar.version().to_string();
    if cycle.calendar_version != version {
        return Err(
            PayrollError::CalendarVersionMismatch {
                cycle_version: cycle.calendar_version.clone(),
                calendar_version: version,
            },
        );
    }
    let p = progress(cycle, calendar, at_utc);
    let today_earned = proportional_salary(cycle.monthly_salary, p.today as u64, p.total);
    let cycle_earned = proportional_salary(cycle.monthly_salary, p.elapsed, p.total);

    Ok(
        PayrollSnapshot {
            local_datetime: p.local_datetime,
            work_status: p.status,
            effective_work_seconds_today: p.today,
            completed_workdays_before_today: p.completed,
            today_earned,
            cycle_earned,
        },
    )
}

} // verus!

verus! {

/// Whether the cycle's salary can be scaled by today's and the cycle's elapsed effective
/// seconds at `at_utc` inside the decimal range, as `calculate_payroll_snapshot` needs.
pub fn is_salary_scalable_at(cycle: &PayrollCycle, calendar: &WorkCalendar, at_utc: Instant) -> (res: bool)
    ensures
        res == salary_scalable_at(*cycle, *calendar, at_utc),
{
    let p = progress(cycle, calendar, at_utc);
    let today_ok = p.today as u64 >= p.total || cycle.monthly_salary.product_within_range_of(p.today as u64);
    let elapsed_ok = p.elapsed >= p.total || cycle.monthly_salary.product_within_range_of(p.elapsed);
    today_ok && elapsed_ok
}

} // verus!
