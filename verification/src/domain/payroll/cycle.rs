use vstd::prelude::*;

use super::{PayrollError, WorkCalendar, WORK_SECONDS_PER_DAY};
use crate::money::{money_abs_le, decimal_quotient, Money};
use crate::time::{spec_date_from_ymd, Date, TimeZone, spec_date_ymd};

verus! {

/// Paid hours of a full workday.
pub const WORK_HOURS_PER_DAY: u32 = 7;

/// The pay rates of a cycle: daily `M / N`, hourly `D / 7` and per effective second `D / 25200`.
#[derive(Clone, Copy, Debug)]
pub struct PayRates {
    pub daily: Money,
    pub hourly: Money,
    pub per_second: Money,
}

/// An immutable payroll-cycle snapshot.
#[derive(Debug)]
pub struct PayrollCycle {
    /// The first day of the salary month.
    pub salary_month: Date,
    pub start_date: Date,
    pub end_date: Date,
    pub monthly_salary: Money,
    pub workday_count: u32,
    pub timezone: TimeZone,
    pub calendar_version: String,
}

/// The first day of the month after `year`-`month`, as `PayrollCycle::for_month` finds it.
pub open spec fn next_month_start_spec(year: i32, month: u32) -> Option<int> {
    if month == 12 {
        if year == i32::MAX {
            None
        } else {
            spec_date_from_ymd(year + 1, 1, 1)
        }
    } else {
        spec_date_from_ymd(year as int, month + 1, 1)
    }
}

/// What `PayrollCycle::for_month` yields: the first day of the month, the cycle's start
/// and end dates and its number of workdays, or the error.
///
/// The cycle starts at the first workday after the previous month's last workday and ends
/// at this month's last workday.
pub open spec fn for_month_spec(calendar: WorkCalendar, year: i32, month: u32, salary: (int, nat)) -> Result<
    (int, int, int, int),
    PayrollError,
> {
    if !(1 <= month <= 12) {
        Err(PayrollError::InvalidMonth(month))
    } else if salary.0 < 0 {
        Err(PayrollError::NegativeSalary)
    } else {
        match spec_date_from_ymd(year as int, month as int, 1) {
            None => Err(PayrollError::InvalidMonth(month)),
            Some(month_start) => match next_month_start_spec(year, month) {
                None => Err(PayrollError::DateOverflow),
                Some(next_start) => match calendar.last_workday_before_spec(month_start) {
                    None => Err(PayrollError::DateOverflow),
                    Some(previous_last) => match calendar.first_workday_after_spec(previous_last) {
                        None => Err(PayrollError::DateOverflow),
                        Some(start) => match calendar.last_workday_before_spec(next_start) {
                            None => Err(PayrollError::DateOverflow),
                            Some(end) => {
                                if start < month_start || start >= next_start || end < month_start
                                    || start > end {
                                    Err(PayrollError::NoWorkdays { year, month })
                                } else if calendar.count_workdays(start, end) == 0 {
                                    Err(PayrollError::NoWorkdays { year, month })
                                } else {
                                    Ok((month_start, start, end, calendar.count_workdays(start, end)))
                                }
                            },
                        },
                    },
                },
            },
        }
    }
}

impl PayrollCycle {
    /// The cycle as `for_month` frames it: start and end are workdays, the end is not before
    /// the start, and the workday count is the number of workdays between them.
    pub open spec fn framed_by(self, calendar: WorkCalendar) -> bool {
        &&& self.start_date@ <= self.end_date@
        &&& calendar.spec_is_workday(self.start_date@)
        &&& calendar.spec_is_workday(self.end_date@)
        &&& self.workday_count as int == calendar.count_workdays(self.start_date@, self.end_date@)
        &&& self.workday_count > 0
        &&& self.calendar_version@ == calendar.version_view()
    }

    /// The payroll cycle of `year`-`month`: from the first workday after the previous month's
    /// last workday to this month's last workday.
    pub fn for_month(
        year: i32,
        month: u32,
        monthly_salary: Money,
        timezone: TimeZone,
        calendar: &WorkCalendar,
    ) -> (res: Result<PayrollCycle, PayrollError>)
        ensures
            match (res, for_month_spec(*calendar, year, month, monthly_salary@)) {
                (Ok(c), Ok(t)) => {
                    &&& c.salary_month@ == t.0
                    &&& c.start_date@ == t.1
                    &&& c.end_date@ == t.2
                    &&& c.workday_count as int == t.3
                    &&& c.monthly_salary@ == monthly_salary@
                    &&& c.timezone@ == timezone@
                    &&& c.framed_by(*calendar)
                },
                (Err(e), Err(f)) => e == f,
                _ => false,
            },
    {
        if !(1 <= month && month <= 12) {
            return Err(PayrollError::InvalidMonth(month));
        }
        if monthly_salary.is_sign_negative() {
            return Err(PayrollError::NegativeSalary);
        }
        let month_start = match Date::from_ymd(year, month, 1) {
            Some(d) => d,
            None => {
                return Err(PayrollError::InvalidMonth(month));
            },
        };
        let next_month_start = if month == 12 {
            if year == i32::MAX {
                return Err(PayrollError::DateOverflow);
            }
            Date::from_ymd(year + 1, 1, 1)
        } else {
            Date::from_ymd(year, month + 1, 1)
        };
        let next_month_start = match next_month_start {
            Some(d) => d,
            None => {
                return Err(PayrollError::DateOverflow);
            },
        };

        // Start at the first workday after the previous month's last workday, and end at
        // this month's last workday.
        let previous_month_last_workday = calendar.last_workday_before(month_start)?;
        let start_date = calendar.first_workday_after(previous_month_last_workday)?;
        let end_date = calendar.last_workday_before(next_month_start)?;

        if start_date.is_before(&month_start) || !start_date.is_before(&next_month_start)
            || end_date.is_before(&month_start) || end_date.is_before(&start_date) {
            return Err(PayrollError::NoWorkdays { year, month });
        }

        let workday_count = calendar.workdays_inclusive(start_date, end_date)?;
        if workday_count == 0 {
            return Err(PayrollError::NoWorkdays { year, month });
        }

        Ok(PayrollCycle {
            salary_month: month_start,
            start_date,
            end_date,
            monthly_salary,
            workday_count,
            timezone,
            calendar_version: calendar.version().to_string(),
        })
    }

    /// The pay rates (daily, hourly, per second) as `pay_rates` computes them.
    pub open spec fn pay_rates_spec(self) -> ((int, nat), (int, nat), (int, nat)) {
        let daily = decimal_quotient(self.monthly_salary@, (self.workday_count as int, 0nat));
        (
            daily,
            decimal_quotient(daily, (WORK_HOURS_PER_DAY as int, 0nat)),
            decimal_quotient(daily, (WORK_SECONDS_PER_DAY as int, 0nat)),
        )
    }

    /// The cycle's pay rates: daily `M / N`, hourly `daily / 7`, per second `daily / 25200`.
    pub fn pay_rates(&self) -> (res: PayRates)
        requires
            self.workday_count > 0,
        ensures
            (res.daily@, res.hourly@, res.per_second@) == self.pay_rates_spec(),
            res.daily@ == decimal_quotient(self.monthly_salary@, (self.workday_count as int, 0nat)),
            res.hourly@ == decimal_quotient(res.daily@, (WORK_HOURS_PER_DAY as int, 0nat)),
            res.per_second@ == decimal_quotient(res.daily@, (WORK_SECONDS_PER_DAY as int, 0nat)),
            money_abs_le(res.daily@, self.monthly_salary@),
            money_abs_le(res.hourly@, res.daily@),
            money_abs_le(res.per_second@, res.daily@),
    {
        let daily = self.monthly_salary.checked_div(Money::from_u32(self.workday_count)).unwrap();
        let hourly = daily.checked_div(Money::from_u32(WORK_HOURS_PER_DAY)).unwrap();
        let per_second = daily.checked_div(Money::from_u32(WORK_SECONDS_PER_DAY)).unwrap();
        PayRates { daily, hourly, per_second }
    }

    pub fn year(&self) -> (res: i32)
        ensures
            res as int == spec_date_ymd(self.salary_month@).0,
    {
        self.salary_month.year()
    }

    pub fn month(&self) -> (res: u32)
        ensures
            res as int == spec_date_ymd(self.salary_month@).1,
    {
        self.salary_month.month()
    }
}

impl Clone for PayrollCycle {
    fn clone(&self) -> (res: PayrollCycle)
        ensures
            res.salary_month == self.salary_month,
            res.start_date == self.start_date,
            res.end_date == self.end_date,
            res.monthly_salary == self.monthly_salary,
            res.workday_count == self.workday_count,
            res.timezone@ == self.timezone@,
            res.calendar_version@ == self.calendar_version@,
    {
        PayrollCycle {
            salary_month: self.salary_month,
            start_date: self.start_date,
            end_date: self.end_date,
            monthly_salary: self.monthly_salary,
            workday_count: self.workday_count,
            timezone: self.timezone.clone(),
            calendar_version: self.calendar_version.clone(),
        }
    }
}

} // verus!
