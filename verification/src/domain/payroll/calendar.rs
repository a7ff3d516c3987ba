use std::collections::BTreeSet;

use vstd::prelude::*;

use super::PayrollError;
use crate::time::{spec_weekday_index, Date, Weekday, MAX_DAY, MIN_DAY};

verus! {

broadcast use vstd::std_specs::btree::group_btree_axioms, vstd::laws_cmp::group_laws_cmp;

/// The frozen work calendar: Monday to Friday, except the configured holidays.
/// Weekend make-up workdays are deliberately not supported.
#[derive(Debug)]
pub struct WorkCalendar {
    version: String,
    holidays: BTreeSet<i32>,
}

impl WorkCalendar {
    /// The calendar's version text.
    pub closed spec fn version_view(self) -> Seq<char> {
        self.version@
    }

    /// The day numbers of the configured holidays.
    pub closed spec fn holiday_days(self) -> Set<i32> {
        self.holidays@
    }

    pub open spec fn spec_is_holiday(self, day: int) -> bool {
        self.holiday_days().contains(day as i32) && MIN_DAY <= day <= MAX_DAY
    }

    /// A workday is a Monday to Friday that is not a holiday.
    pub open spec fn spec_is_workday(self, day: int) -> bool {
        spec_weekday_index(day) < 5 && !self.spec_is_holiday(day)
    }

    /// The number of workdays from `lo` to `hi`, both included.
    pub open spec fn count_workdays(self, lo: int, hi: int) -> int
        decreases hi - lo + 1,
    {
        if hi < lo {
            0
        } else {
            self.count_workdays(lo, hi - 1) + if self.spec_is_workday(hi) {
                1int
            } else {
                0int
            }
        }
    }

    /// `day` is the latest workday strictly before `before` (and is a representable date).
    pub open spec fn is_last_workday_before(self, before: int, day: int) -> bool {
        &&& MIN_DAY <= day < before
        &&& self.spec_is_workday(day)
        &&& forall|y: int| day < y < before ==> !#[trigger] self.spec_is_workday(y)
    }

    /// `day` is the earliest workday strictly after `after` (and is a representable date).
    pub open spec fn is_first_workday_after(self, after: int, day: int) -> bool {
        &&& after < day <= MAX_DAY
        &&& self.spec_is_workday(day)
        &&& forall|y: int| after < y < day ==> !#[trigger] self.spec_is_workday(y)
    }

    /// The latest workday before `before`, if there is one among the representable dates.
    pub open spec fn last_workday_before_spec(self, before: int) -> Option<int> {
        if exists|d: int| self.is_last_workday_before(before, d) {
            Some(choose|d: int| self.is_last_workday_before(before, d))
        } else {
            None
        }
    }

    /// The earliest workday after `after`, if there is one among the representable dates.
    pub open spec fn first_workday_after_spec(self, after: int) -> Option<int> {
        if exists|d: int| self.is_first_workday_after(after, d) {
            Some(choose|d: int| self.is_first_workday_after(after, d))
        } else {
            None
        }
    }
}

/// There is at most one latest workday before a date.
pub proof fn lemma_last_workday_unique(cal: WorkCalendar, before: int, a: int, b: int)
    requires
        cal.is_last_workday_before(before, a),
        cal.is_last_workday_before(before, b),
    ensures
        a == b,
{
    if a < b {
        assert(!cal.spec_is_workday(b));
    } else if b < a {
        assert(!cal.spec_is_workday(a));
    }
}

/// There is at most one earliest workday after a date.
pub proof fn lemma_first_workday_unique(cal: WorkCalendar, after: int, a: int, b: int)
    requires
        cal.is_first_workday_after(after, a),
        cal.is_first_workday_after(after, b),
    ensures
        a == b,
{
    if a < b {
        assert(!cal.spec_is_workday(a));
    } else if b < a {
        assert(!cal.spec_is_workday(b));
    }
}

/// A count of workdays never exceeds the number of days counted.
pub proof fn lemma_count_workdays_bounds(cal: WorkCalendar, lo: int, hi: int)
    ensures
        0 <= cal.count_workdays(lo, hi),
        lo <= hi + 1 ==> cal.count_workdays(lo, hi) <= hi - lo + 1,
    decreases hi - lo + 1,
{
    if hi >= lo {
        lemma_count_workdays_bounds(cal, lo, hi - 1);
    }
}

/// A range that holds a workday counts at least one.
pub proof fn lemma_count_workdays_positive(cal: WorkCalendar, lo: int, hi: int, day: int)
    requires
        lo <= day <= hi,
        cal.spec_is_workday(day),
    ensures
        cal.count_workdays(lo, hi) >= 1,
    decreases hi - lo,
{
    if day == hi {
        lemma_count_workdays_bounds(cal, lo, hi - 1);
    } else {
        lemma_count_workdays_positive(cal, lo, hi - 1, day);
    }
}

impl WorkCalendar {
    /// A calendar with a version text and a set of holidays.
    pub fn new(version: &str, holidays: &[Date]) -> (res: WorkCalendar)
        ensures
            res.version_view() == version@,
            forall|d: int|
                #![trigger res.spec_is_holiday(d)]
                res.spec_is_holiday(d) <==> exists|i: int|
                    0 <= i < holidays@.len() && #[trigger] holidays@[i]@ == d,
    {
        let mut set: BTreeSet<i32> = BTreeSet::new();
        let mut i: usize = 0;
        while i < holidays.len()
            invariant
                i <= holidays@.len(),
                forall|j: int| 0 <= j < i ==> MIN_DAY <= #[trigger] holidays@[j]@ <= MAX_DAY,
                forall|x: i32|
                    #![trigger set@.contains(x)]
                    set@.contains(x) <==> exists|j: int|
                        0 <= j < i && #[trigger] holidays@[j]@ == x as int,
            decreases holidays@.len() - i,
        {
            let h = holidays[i];
            proof {
                use_type_invariant(&h);
            }
            let day = h.day_number_of();
            set.insert(day);
            proof {
                assert forall|x: i32| #![trigger set@.contains(x)] set@.contains(x) <==> exists|j: int|
                    0 <= j < i + 1 && #[trigger] holidays@[j]@ == x as int by {
                    if set@.contains(x) && x != day {
                        let j = choose|j: int| 0 <= j < i && #[trigger] holidays@[j]@ == x as int;
                        assert(0 <= j < i + 1);
                    }
                    if x == day {
                        assert(holidays@[i as int]@ == x as int);
                    }
                }
            }
            i = i + 1;
        }
        let res = WorkCalendar { version: version.to_string(), holidays: set };
        proof {
            assert forall|d: int| #![trigger res.spec_is_holiday(d)] res.spec_is_holiday(d) <==> exists|i: int|
                0 <= i < holidays@.len() && #[trigger] holidays@[i]@ == d by {
                if exists|i: int| 0 <= i < holidays@.len() && #[trigger] holidays@[i]@ == d {
                    let k = choose|i: int| 0 <= i < holidays@.len() && #[trigger] holidays@[i]@ == d;
                    assert(MIN_DAY <= holidays@[k]@ <= MAX_DAY);
                    assert(set@.contains(d as i32));
                }
            }
        }
        res
    }

    /// The calendar's version text.
    pub fn version(&self) -> (res: &str)
        ensures
            res@ == self.version_view(),
    {
        self.version.as_str()
    }

    pub fn is_holiday(&self, date: Date) -> (res: bool)
        ensures
            res == self.spec_is_holiday(date@),
    {
        proof {
            use_type_invariant(&date);
        }
        let day = date.day_number_of();
        self.holidays.contains(&day)
    }

    pub fn is_workday(&self, date: Date) -> (res: bool)
        ensures
            res == self.spec_is_workday(date@),
    {
        let weekend = match date.weekday() {
            Weekday::Saturday | Weekday::Sunday => true,
            _ => false,
        };
        !weekend && !self.is_holiday(date)
    }

    /// The number of workdays from `start` to `end`, both included (zero when
    /// `start` is after `end`).
    pub fn workdays_inclusive(&self, start: Date, end: Date) -> (res: Result<u32, PayrollError>)
        ensures
            res matches Ok(n) && n as int == self.count_workdays(start@, end@),
    {
        if end.is_before(&start) {
            return Ok(0);
        }
        let mut date = start;
        let mut count: u32 = 0;
        proof {
            use_type_invariant(&start);
            use_type_invariant(&end);
        }
        loop
            invariant
                start@ <= date@ <= end@,
                MIN_DAY <= start@,
                end@ <= MAX_DAY,
                count as int == self.count_workdays(start@, date@ - 1),
            decreases end@ - date@,
        {
            proof {
                lemma_count_workdays_bounds(*self, start@, date@ - 1);
            }
            if self.is_workday(date) {
                count = count + 1;
            }
            if date.same_day(&end) {
                return Ok(count);
            }
            date = match date.succ() {
                Some(next) => next,
                None => {
                    return Err(PayrollError::DateOverflow);
                },
            };
        }
    }

    /// The earliest workday after `date` (`DateOverflow` when none is representable).
    pub fn first_workday_after(&self, date: Date) -> (res: Result<Date, PayrollError>)
        ensures
            res matches Ok(d) ==> self.is_first_workday_after(date@, d@),
            res matches Err(e) ==> e == PayrollError::DateOverflow && self.first_workday_after_spec(
                date@,
            ) is None,
            res is Ok <==> self.first_workday_after_spec(date@) is Some,
            res matches Ok(d) ==> self.first_workday_after_spec(date@) == Some(d@),
    {
        let mut candidate = match date.succ() {
            Some(next) => next,
            None => {
                proof {
                    assert(!exists|d: int| self.is_first_workday_after(date@, d));
                }
                return Err(PayrollError::DateOverflow);
            },
        };
        while !self.is_workday(candidate)
            invariant
                date@ < candidate@,
                forall|y: int| date@ < y < candidate@ ==> !#[trigger] self.spec_is_workday(y),
            decreases MAX_DAY - candidate@,
        {
            proof {
                use_type_invariant(&candidate);
            }
            candidate = match candidate.succ() {
                Some(next) => next,
                None => {
                    proof {
                        assert forall|d: int| !self.is_first_workday_after(date@, d) by {
                            if self.is_first_workday_after(date@, d) {
                                assert(d <= MAX_DAY);
                                if d < candidate@ {
                                    assert(!self.spec_is_workday(d));
                                }
                            }
                        }
                    }
                    return Err(PayrollError::DateOverflow);
                },
            };
        }
        proof {
            use_type_invariant(&candidate);
            assert(self.is_first_workday_after(date@, candidate@));
            let c = choose|d: int| self.is_first_workday_after(date@, d);
            lemma_first_workday_unique(*self, date@, c, candidate@);
        }
        Ok(candidate)
    }

    /// The latest workday before `date` (`DateOverflow` when none is representable).
    pub fn last_workday_before(&self, date: Date) -> (res: Result<Date, PayrollError>)
        ensures
            res matches Ok(d) ==> self.is_last_workday_before(date@, d@),
            res matches Err(e) ==> e == PayrollError::DateOverflow && self.last_workday_before_spec(
                date@,
            ) is None,
            res is Ok <==> self.last_workday_before_spec(date@) is Some,
            res matches Ok(d) ==> self.last_workday_before_spec(date@) == Some(d@),
    {
        let mut candidate = match date.pred() {
            Some(prev) => prev,
            None => {
                proof {
                    assert(!exists|d: int| self.is_last_workday_before(date@, d));
                }
                return Err(PayrollError::DateOverflow);
            },
        };
        while !self.is_workday(candidate)
            invariant
                candidate@ < date@,
                forall|y: int| candidate@ < y < date@ ==> !#[trigger] self.spec_is_workday(y),
            decreases candidate@ - MIN_DAY,
        {
            proof {
                use_type_invariant(&candidate);
            }
            candidate = match candidate.pred() {
                Some(prev) => prev,
                None => {
                    proof {
                        assert forall|d: int| !self.is_last_workday_before(date@, d) by {
                            if self.is_last_workday_before(date@, d) {
                                assert(d >= MIN_DAY);
                                if d > candidate@ {
                                    assert(!self.spec_is_workday(d));
                                }
                            }
                        }
                    }
                    return Err(PayrollError::DateOverflow);
                },
            };
        }
        proof {
            use_type_invariant(&candidate);
            assert(self.is_last_workday_before(date@, candidate@));
            let c = choose|d: int| self.is_last_workday_before(date@, d);
            lemma_last_workday_unique(*self, date@, c, candidate@);
        }
        Ok(candidate)
    }
}

impl Clone for WorkCalendar {
    fn clone(&self) -> (res: WorkCalendar)
        ensures
            res.version_view() == self.version_view(),
            res.holiday_days() == self.holiday_days(),
    {
        WorkCalendar { version: self.version.clone(), holidays: self.holidays.clone() }
    }
}

} // verus!
