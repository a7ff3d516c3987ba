use vstd::prelude::*;

use super::WorkCalendar;
use crate::time::{Date, TimeOfDay};

verus! {

/// Effective paid seconds of a full workday (7 hours).
pub const WORK_SECONDS_PER_DAY: u32 = 25_200;

/// Effective paid seconds of the morning period (08:40 to 11:40).
pub const MORNING_SECONDS: u32 = 10_800;

/// 08:40, as a second of the day.
pub open spec fn work_start_secs() -> int {
    31_200
}

/// 11:40, as a second of the day.
pub open spec fn lunch_start_secs() -> int {
    42_000
}

/// 13:30, as a second of the day.
pub open spec fn afternoon_start_secs() -> int {
    48_600
}

/// 17:30, as a second of the day.
pub open spec fn work_end_secs() -> int {
    63_000
}

fn work_start() -> (res: TimeOfDay)
    ensures
        res@ == work_start_secs(),
{
    TimeOfDay::from_hms(8, 40, 0).unwrap()
}

fn lunch_start() -> (res: TimeOfDay)
    ensures
        res@ == lunch_start_secs(),
{
    TimeOfDay::from_hms(11, 40, 0).unwrap()
}

fn afternoon_start() -> (res: TimeOfDay)
    ensures
        res@ == afternoon_start_secs(),
{
    TimeOfDay::from_hms(13, 30, 0).unwrap()
}

fn work_end() -> (res: TimeOfDay)
    ensures
        res@ == work_end_secs(),
{
    TimeOfDay::from_hms(17, 30, 0).unwrap()
}

/// Where a local date and time falls in the fixed working day.
#[derive(Clone, Copy, Debug, PartialEq, Eq)]
pub enum WorkStatus {
    NonWorkday,
    BeforeWork,
    WorkingAm,
    LunchBreak,
    WorkingPm,
    AfterWork,
}

impl WorkStatus {
    pub open spec fn code_spec(self) -> Seq<char> {
        match self {
            WorkStatus::NonWorkday => "NON_WORKDAY"@,
            WorkStatus::BeforeWork => "BEFORE_WORK"@,
            WorkStatus::WorkingAm => "WORKING_AM"@,
            WorkStatus::LunchBreak => "LUNCH_BREAK"@,
            WorkStatus::WorkingPm => "WORKING_PM"@,
            WorkStatus::AfterWork => "AFTER_WORK"@,
        }
    }

    /// The status code shown to the front end.
    pub fn as_code(self) -> (res: &'static str)
        ensures
            res@ == self.code_spec(),
    {
        match self {
            WorkStatus::NonWorkday => "NON_WORKDAY",
            WorkStatus::BeforeWork => "BEFORE_WORK",
            WorkStatus::WorkingAm => "WORKING_AM",
            WorkStatus::LunchBreak => "LUNCH_BREAK",
            WorkStatus::WorkingPm => "WORKING_PM",
            WorkStatus::AfterWork => "AFTER_WORK",
        }
    }
}

/// The work status of a local second of the day on a local date.
pub open spec fn spec_work_status(calendar: WorkCalendar, day: int, secs: int) -> WorkStatus {
    if !calendar.spec_is_workday(day) {
        WorkStatus::NonWorkday
    } else if secs < work_start_secs() {
        WorkStatus::BeforeWork
    } else if secs < lunch_start_secs() {
        WorkStatus::WorkingAm
    } else if secs < afternoon_start_secs() {
        WorkStatus::LunchBreak
    } else if secs < work_end_secs() {
        WorkStatus::WorkingPm
    } else {
        WorkStatus::AfterWork
    }
}

/// The completed whole effective work seconds of a local date up to a local second.
pub open spec fn spec_effective_seconds(calendar: WorkCalendar, day: int, secs: int) -> int {
    match spec_work_status(calendar, day, secs) {
        WorkStatus::NonWorkday | WorkStatus::BeforeWork => 0,
        WorkStatus::WorkingAm => secs - work_start_secs(),
        WorkStatus::LunchBreak => MORNING_SECONDS as int,
        WorkStatus::WorkingPm => MORNING_SECONDS + (secs - afternoon_start_secs()),
        WorkStatus::AfterWork => WORK_SECONDS_PER_DAY as int,
    }
}

/// The work status of a local date and time.
pub fn work_status(date: Date, time: TimeOfDay, calendar: &WorkCalendar) -> (res: WorkStatus)
    ensures
        res == spec_work_status(*calendar, date@, time@),
{
    let t = time.seconds_from_midnight();
    if !calendar.is_workday(date) {
        WorkStatus::NonWorkday
    } else if t < work_start().seconds_from_midnight() {
        WorkStatus::BeforeWork
    } else if t < lunch_start().seconds_from_midnight() {
        WorkStatus::WorkingAm
    } else if t < afternoon_start().seconds_from_midnight() {
        WorkStatus::LunchBreak
    } else if t < work_end().seconds_from_midnight() {
        WorkStatus::WorkingPm
    } else {
        WorkStatus::AfterWork
    }
}

/// The completed whole effective work seconds of the local work date: 08:40 to 11:40 and
/// 13:30 to 17:30 are paid, the lunch break is not.
pub fn effective_work_seconds(date: Date, time: TimeOfDay, calendar: &WorkCalendar) -> (res: u32)
    ensures
        res as int == spec_effective_seconds(*calendar, date@, time@),
        res <= WORK_SECONDS_PER_DAY,
{
    match work_status(date, time, calendar) {
        WorkStatus::NonWorkday | WorkStatus::BeforeWork => 0,
        WorkStatus::WorkingAm => time.seconds_from_midnight() - work_start().seconds_from_midnight(),
        WorkStatus::LunchBreak => MORNING_SECONDS,
        WorkStatus::WorkingPm => {
            let afternoon_seconds: u32 = time.seconds_from_midnight()
                - afternoon_start().seconds_from_midnight();
            MORNING_SECONDS + afternoon_seconds
        },
        WorkStatus::AfterWork => WORK_SECONDS_PER_DAY,
    }
}

/// Effective seconds never decrease as the time of day advances on one date.
pub proof fn law_effective_seconds_monotonic(
    calendar: WorkCalendar,
    day: int,
    earlier: int,
    later: int,
)
    requires
        earlier <= later,
    ensures
        spec_effective_seconds(calendar, day, earlier) <= spec_effective_seconds(
            calendar,
            day,
            later,
        ),
        0 <= spec_effective_seconds(calendar, day, earlier) <= WORK_SECONDS_PER_DAY,
{
}

/// Effective seconds stay at the morning total for the whole lunch break, both ends included.
pub proof fn law_effective_seconds_frozen_during_lunch(calendar: WorkCalendar, day: int, secs: int)
    requires
        calendar.spec_is_workday(day),
        lunch_start_secs() <= secs <= afternoon_start_secs(),
    ensures
        spec_effective_seconds(calendar, day, secs) == MORNING_SECONDS,
{
}

/// A non-workday never accrues effective seconds.
pub proof fn law_non_workday_accrues_nothing(calendar: WorkCalendar, day: int, secs: int)
    requires
        !calendar.spec_is_workday(day),
    ensures
        spec_effective_seconds(calendar, day, secs) == 0,
        spec_work_status(calendar, day, secs) == WorkStatus::NonWorkday,
{
}

/// From the end of the working day on, a workday has accrued all its effective seconds.
pub proof fn law_full_day_after_work_end(calendar: WorkCalendar, day: int, secs: int)
    requires
        calendar.spec_is_workday(day),
        work_end_secs() <= secs,
    ensures
        spec_effective_seconds(calendar, day, secs) == WORK_SECONDS_PER_DAY,
{
}

} // verus!
