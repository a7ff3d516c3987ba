//! The environment the application runs in: its time zone, its work calendar and the names
//! of its holidays.
use vstd::prelude::*;

use crate::domain::payroll::{PayrollCycle, WorkCalendar};
use crate::time::{Date, TimeZone};

verus! {

/// The calendar version used when no other is configured.
pub const DEFAULT_CALENDAR_VERSION: &'static str = "weekdays-only-v1";

/// The name a list of named holidays gives a day: that of the last entry for it.
pub open spec fn holiday_name_in(names: Seq<(Date, String)>, day: int) -> Option<Seq<char>>
    decreases names.len(),
{
    if names.len() == 0 {
        None
    } else if names.last().0@ == day {
        Some(names.last().1@)
    } else {
        holiday_name_in(names.drop_last(), day)
    }
}

/// The time zone, work calendar and holiday names the application runs with.
#[derive(Debug)]
pub struct ApplicationEnvironment {
    pub timezone: TimeZone,
    pub calendar: WorkCalendar,
    pub holiday_names: Vec<(Date, String)>,
}

impl ApplicationEnvironment {
    /// The name of a holiday, if it has one.
    pub open spec fn holiday_name_spec(self, day: int) -> Option<Seq<char>> {
        holiday_name_in(self.holiday_names@, day)
    }

    /// Shanghai time and the weekdays-only calendar, with no holidays.
    pub fn default_environment() -> (res: ApplicationEnvironment)
        ensures
            res.timezone@ == "Asia/Shanghai"@,
            res.calendar.version_view() == DEFAULT_CALENDAR_VERSION@,
            forall|d: int| !res.calendar.spec_is_holiday(d),
            forall|d: int| res.holiday_name_spec(d) is None,
    {
        let holidays: Vec<Date> = Vec::new();
        ApplicationEnvironment {
            timezone: TimeZone::shanghai(),
            calendar: WorkCalendar::new(DEFAULT_CALENDAR_VERSION, holidays.as_slice()),
            holiday_names: Vec::new(),
        }
    }

    /// A time zone and a calendar, with no holiday names.
    pub fn from_calendar(timezone: TimeZone, calendar: WorkCalendar) -> (res: ApplicationEnvironment)
        ensures
            res.timezone@ == timezone@,
            res.calendar == calendar,
            forall|d: int| res.holiday_name_spec(d) is None,
    {
        ApplicationEnvironment { timezone, calendar, holiday_names: Vec::new() }
    }

    /// A time zone and a calendar of a version whose holidays are the named days.
    pub fn new(timezone: TimeZone, calendar_version: &str, holidays: Vec<(Date, String)>) -> (res: ApplicationEnvironment)
        ensures
            res.timezone@ == timezone@,
            res.calendar.version_view() == calendar_version@,
            forall|d: int|
                #![trigger res.calendar.spec_is_holiday(d)]
                res.calendar.spec_is_holiday(d) <==> exists|i: int|
                    0 <= i < holidays@.len() && (#[trigger] holidays@[i]).0@ == d,
            forall|d: int| #[trigger] res.holiday_name_spec(d) == holiday_name_in(holidays@, d),
    {
        let mut dates: Vec<Date> = Vec::new();
        let mut i: usize = 0;
        while i < holidays.len()
            invariant
                i <= holidays@.len(),
                dates@.len() == i,
                forall|k: int| 0 <= k < i ==> (#[trigger] dates@[k]) == holidays@[k].0,
            decreases holidays@.len() - i,
        {
            dates.push(holidays[i].0);
            i = i + 1;
        }
        let calendar = WorkCalendar::new(calendar_version, dates.as_slice());
        proof {
            assert forall|d: int|
                #![trigger calendar.spec_is_holiday(d)]
                calendar.spec_is_holiday(d) <==> exists|k: int|
                    0 <= k < holidays@.len() && (#[trigger] holidays@[k]).0@ == d by {
                if exists|k: int| 0 <= k < dates@.len() && #[trigger] dates@[k]@ == d {
                    let k = choose|k: int| 0 <= k < dates@.len() && #[trigger] dates@[k]@ == d;
                    assert(holidays@[k].0@ == d);
                }
                if exists|k: int| 0 <= k < holidays@.len() && (#[trigger] holidays@[k]).0@ == d {
                    let k = choose|k: int| 0 <= k < holidays@.len() && (#[trigger] holidays@[k]).0@ == d;
                    assert(dates@[k]@ == d);
                }
            }
        }
        ApplicationEnvironment { timezone, calendar, holiday_names: holidays }
    }

    /// The name of a holiday, if it has one.
    pub fn holiday_name(&self, date: Date) -> (res: Option<String>)
        ensures
            res matches Some(n) ==> self.holiday_name_spec(date@) == Some(n@),
            res is None ==> self.holiday_name_spec(date@) is None,
    {
        let mut k: usize = self.holiday_names.len();
        assert(self.holiday_names@.take(k as int) == self.holiday_names@);
        while k > 0
            invariant
                k <= self.holiday_names@.len(),
                holiday_name_in(self.holiday_names@, date@) == holiday_name_in(
                    self.holiday_names@.take(k as int),
                    date@,
                ),
            decreases k,
        {
            assert(self.holiday_names@.take(k as int).drop_last() == self.holiday_names@.take(k - 1));
            if self.holiday_names[k - 1].0.same_day(&date) {
                return Some(self.holiday_names[k - 1].1.clone());
            }
            k = k - 1;
        }
        None
    }
}

impl Clone for ApplicationEnvironment {
    fn clone(&self) -> (res: ApplicationEnvironment)
        ensures
            res.timezone@ == self.timezone@,
            res.calendar.version_view() == self.calendar.version_view(),
            res.calendar.holiday_days() == self.calendar.holiday_days(),
            forall|d: int| #[trigger] res.holiday_name_spec(d) == self.holiday_name_spec(d),
    {
        let mut names: Vec<(Date, String)> = Vec::new();
        let mut i: usize = 0;
        while i < self.holiday_names.len()
            invariant
                i <= self.holiday_names@.len(),
                names@.len() == i,
                forall|k: int| 0 <= k < i ==> (#[trigger] names@[k]).0 == self.holiday_names@[k].0
                    && names@[k].1@ == self.holiday_names@[k].1@,
            decreases self.holiday_names@.len() - i,
        {
            names.push((self.holiday_names[i].0, self.holiday_names[i].1.clone()));
            i = i + 1;
        }
        proof {
            lemma_names_same(names@, self.holiday_names@);
        }
        ApplicationEnvironment { timezone: self.timezone.clone(), calendar: self.calendar.clone(), holiday_names: names }
    }
}

proof fn lemma_names_same(a: Seq<(Date, String)>, b: Seq<(Date, String)>)
    requires
        a.len() == b.len(),
        forall|k: int| 0 <= k < a.len() ==> (#[trigger] a[k]).0 == b[k].0 && a[k].1@ == b[k].1@,
    ensures
        forall|d: int| #[trigger] holiday_name_in(a, d) == holiday_name_in(b, d),
    decreases a.len(),
{
    if a.len() > 0 {
        let a2 = a.drop_last();
        let b2 = b.drop_last();
        assert forall|k: int| 0 <= k < a2.len() implies (#[trigger] a2[k]).0 == b2[k].0 && a2[k].1@ == b2[k].1@ by {
            assert(a2[k] == a[k] && b2[k] == b[k]);
        }
        lemma_names_same(a2, b2);
        assert(a.last().0 == b.last().0);
        assert forall|d: int| #[trigger] holiday_name_in(a, d) == holiday_name_in(b, d) by {
            assert(holiday_name_in(a2, d) == holiday_name_in(b2, d));
        }
    }
}

} // verus!
