//! Calendar dates, times of day, UTC instants and time zones as plain values.
//!
//! Dates are counted as days from the common era (January 1 of year 1 is day 1), as
//! `chrono` counts them; conversions to and from years, months, days, texts and
//! local time zones are performed by `chrono` and `chrono_tz`.
use chrono::{Datelike, NaiveDate, TimeZone as ChronoTimeZone, Timelike};
use vstd::prelude::*;

use crate::text::{concat, padded_int, padded_int_text, spec_u64_text, u64_text};

verus! {

/// The day number of the earliest date `chrono` represents (January 1, 262144 BCE).
pub const MIN_DAY: i32 = -95_746_129;

/// The day number of the latest date `chrono` represents (December 31, 262142 CE).
pub const MAX_DAY: i32 = 95_745_399;

/// The day number of January 1, 1970.
pub const UNIX_EPOCH_DAY: i32 = 719_163;

pub const SECONDS_PER_DAY: i64 = 86_400;

/// The earliest UTC instant kept, in seconds from the Unix epoch (one day after the
/// earliest date, so that every local date of it is a representable date).
pub open spec fn min_instant_secs() -> int {
    (MIN_DAY + 1 - UNIX_EPOCH_DAY) * SECONDS_PER_DAY
}

/// One past the latest UTC second kept (one day before the end of the latest date).
pub open spec fn max_instant_secs() -> int {
    (MAX_DAY - UNIX_EPOCH_DAY) * SECONDS_PER_DAY
}

/// The weekday of a day number, Monday being 0 and Sunday 6.
pub open spec fn spec_weekday_index(days: int) -> int {
    (days - 1) % 7
}

/// A leap year of the proleptic Gregorian calendar.
pub open spec fn is_leap_year(y: int) -> bool {
    y % 4 == 0 && (y % 100 != 0 || y % 400 == 0)
}

/// The number of days of a month of the proleptic Gregorian calendar.
pub open spec fn days_in_month(y: int, m: int) -> int {
    if m == 2 {
        if is_leap_year(y) {
            29
        } else {
            28
        }
    } else if m == 4 || m == 6 || m == 9 || m == 11 {
        30
    } else {
        31
    }
}

/// The proleptic Gregorian day number of a year, month and day, counted from
/// 0001-01-01 as day 1 (`Datelike::num_days_from_ce`): days are counted in 400-year eras
/// of 146097 days, each year starting on the first of March.
#[verifier::opaque]
pub open spec fn civil_day_number(y: int, m: int, d: int) -> int {
    let y2 = if m <= 2 {
        y - 1
    } else {
        y
    };
    let era = y2 / 400;
    let yoe = y2 - era * 400;
    let mp = if m > 2 {
        m - 3
    } else {
        m + 9
    };
    let doy = (153 * mp + 2) / 5 + d - 1;
    let doe = yoe * 365 + yoe / 4 - yoe / 100 + doy;
    era * 146097 + doe - 305
}

/// The day number `chrono` gives to a year, month and day (`NaiveDate::from_ymd_opt`):
/// `None` unless the month is 1 to 12, the day exists in that month and the year is
/// within `chrono`'s range (-262143 to 262142).
#[verifier::opaque]
pub open spec fn spec_date_from_ymd(year: int, month: int, day: int) -> Option<int> {
    if -262143 <= year <= 262142 && 1 <= month <= 12 && 1 <= day <= days_in_month(year, month) {
        Some(civil_day_number(year, month, day))
    } else {
        None
    }
}

/// The year, month and day of a proleptic Gregorian day number counted from 0001-01-01
/// as day 1 (`Datelike::{year, month, day}`), the inverse of `civil_day_number`.
#[verifier::opaque]
pub open spec fn spec_date_ymd(days: int) -> (int, int, int) {
    let z = days + 305;
    let era = z / 146097;
    let doe = z - era * 146097;
    let yoe = (doe - doe / 1460 + doe / 36524 - doe / 146096) / 365;
    let y = yoe + era * 400;
    let doy = doe - (365 * yoe + yoe / 4 - yoe / 100);
    let mp = (5 * doy + 2) / 153;
    let d = doy - (153 * mp + 2) / 5 + 1;
    let m = if mp < 10 {
        mp + 3
    } else {
        mp - 9
    };
    (if m <= 2 {
        y + 1
    } else {
        y
    }, m, d)
}

/// The year as `NaiveDate`'s `Display` writes it: four digits for years 0 to 9999,
/// otherwise signed with at least four digits.
pub open spec fn year_text(y: int) -> Seq<char> {
    if 0 <= y <= 9999 {
        padded_int_text(y, 4)
    } else if y < 0 {
        padded_int_text(y, 5)
    } else {
        "+"@ + spec_u64_text(y as u64)
    }
}

/// The text `NaiveDate`'s `Display` writes (`YYYY-MM-DD`).
pub open spec fn spec_date_text(days: int) -> Seq<char> {
    let (y, m, d) = spec_date_ymd(days);
    year_text(y) + "-"@ + padded_int_text(m, 2) + "-"@ + padded_int_text(d, 2)
}

/// Whether `chrono_tz` knows a time-zone name.
pub uninterp spec fn spec_zone_known(name: Seq<char>) -> bool;

/// The local day number and second of the day of a UTC instant in a time zone.
pub uninterp spec fn spec_local_parts(secs: int, nanos: int, zone: Seq<char>) -> (int, int);

/// The UTC instant (seconds, nanoseconds) of an unambiguous local date and time in a zone.
pub uninterp spec fn spec_instant_of_local(days: int, secs_of_day: int, zone: Seq<char>) -> Option<
    (int, int),
>;

/// `hh:mm:ss` of a second of the day.
pub open spec fn clock_text(s: int) -> Seq<char> {
    padded_int_text(s / 3600, 2) + ":"@ + padded_int_text((s % 3600) / 60, 2) + ":"@ + padded_int_text(s % 60, 2)
}

/// The fraction of a second that `DateTime::to_rfc3339` writes: nothing for zero
/// nanoseconds, otherwise milliseconds, microseconds or nanoseconds, the first of them
/// that is exact.
pub open spec fn rfc3339_fraction(n: int) -> Seq<char> {
    if n == 0 {
        Seq::empty()
    } else if n % 1_000_000 == 0 {
        "."@ + padded_int_text(n / 1_000_000, 3)
    } else if n % 1_000 == 0 {
        "."@ + padded_int_text(n / 1_000, 6)
    } else {
        "."@ + padded_int_text(n, 9)
    }
}

/// The RFC 3339 text of a UTC instant (`DateTime<Utc>::to_rfc3339`): the date of its day,
/// `T`, the time of day, the fraction of the second and the offset `+00:00`.
#[verifier::opaque]
pub open spec fn spec_utc_text(secs: int, nanos: int) -> Seq<char> {
    spec_date_text(secs / 86_400 + UNIX_EPOCH_DAY) + "T"@ + clock_text(secs % 86_400) + rfc3339_fraction(nanos)
        + "+00:00"@
}

/// The RFC 3339 text of an instant shown in a time zone (`DateTime<Tz>::to_rfc3339`).
pub uninterp spec fn spec_local_text(secs: int, nanos: int, zone: Seq<char>) -> Seq<char>;

/// A calendar date, by its day number.
#[derive(Clone, Copy, Debug, PartialEq, Eq, Hash)]
pub struct Date {
    days: i32,
}

impl Date {
    pub closed spec fn day_number(self) -> int {
        self.days as int
    }

    #[verifier::type_invariant]
    pub open spec fn inv(self) -> bool {
        MIN_DAY <= self.day_number() <= MAX_DAY
    }
}

/// Two dates with the same day number are the same date.
pub proof fn lemma_date_view_injective(a: Date, b: Date)
    requires
        a@ == b@,
    ensures
        a == b,
{
}

impl View for Date {
    type V = int;

    open spec fn view(&self) -> int {
        self.day_number()
    }
}

#[derive(Clone, Copy, Debug, PartialEq, Eq, Structural)]
pub enum Weekday {
    Monday,
    Tuesday,
    Wednesday,
    Thursday,
    Friday,
    Saturday,
    Sunday,
}

impl Weekday {
    pub open spec fn index(self) -> int {
        match self {
            Weekday::Monday => 0,
            Weekday::Tuesday => 1,
            Weekday::Wednesday => 2,
            Weekday::Thursday => 3,
            Weekday::Friday => 4,
            Weekday::Saturday => 5,
            Weekday::Sunday => 6,
        }
    }
}

/// Day number of a year, month and day (`NaiveDate::from_ymd_opt`, then
/// `num_days_from_ce`): claimed to be the proleptic Gregorian day number for a date that
/// exists within `chrono`'s years, and `None` otherwise.
#[verifier::external_body]
fn chrono_day_number(year: i32, month: u32, day: u32) -> (res: Option<i32>)
    ensures
        res matches Some(d) ==> Some(d as int) == spec_date_from_ymd(year as int, month as int, day as int)
            && MIN_DAY <= d <= MAX_DAY,
        res is None ==> spec_date_from_ymd(year as int, month as int, day as int) is None,
        res is Some ==> 1 <= month <= 12 && 1 <= day <= 31,
{
    match NaiveDate::from_ymd_opt(year, month, day) {
        Some(date) => Some(date.num_days_from_ce()),
        None => None,
    }
}

/// Year, month and day of a day number (`NaiveDate::from_num_days_from_ce_opt`, then
/// `Datelike::{year, month, day}`): claimed to be the proleptic Gregorian date of it.
#[verifier::external_body]
fn chrono_ymd(days: i32) -> (res: (i32, u32, u32))
    requires
        MIN_DAY <= days <= MAX_DAY,
    ensures
        (res.0 as int, res.1 as int, res.2 as int) == spec_date_ymd(days as int),
        1 <= res.1 <= 12,
        1 <= res.2 <= 31,
{
    let date = NaiveDate::from_num_days_from_ce_opt(days).unwrap();
    (date.year(), date.month(), date.day())
}

impl Date {
    /// The date of a year, month and day, if it exists (`NaiveDate::from_ymd_opt`).
    pub fn from_ymd(year: i32, month: u32, day: u32) -> (res: Option<Date>)
        ensures
            res matches Some(d) ==> Some(d@) == spec_date_from_ymd(year as int, month as int, day as int),
            res is None ==> spec_date_from_ymd(year as int, month as int, day as int) is None,
            res is Some ==> 1 <= month <= 12 && 1 <= day <= 31,
    {
        match chrono_day_number(year, month, day) {
            Some(days) => Some(Date { days }),
            None => None,
        }
    }

    pub fn day_number_of(&self) -> (res: i32)
        ensures
            res as int == self@,
    {
        self.days
    }

    pub fn year(&self) -> (res: i32)
        ensures
            res as int == spec_date_ymd(self@).0,
    {
        proof {
            use_type_invariant(self);
        }
        chrono_ymd(self.days).0
    }

    pub fn month(&self) -> (res: u32)
        ensures
            res as int == spec_date_ymd(self@).1,
            1 <= res <= 12,
    {
        proof {
            use_type_invariant(self);
        }
        chrono_ymd(self.days).1
    }

    pub fn day(&self) -> (res: u32)
        ensures
            res as int == spec_date_ymd(self@).2,
            1 <= res <= 31,
    {
        proof {
            use_type_invariant(self);
        }
        chrono_ymd(self.days).2
    }

    /// `NaiveDate`'s `Display`.
    pub fn to_text(&self) -> (res: String)
        ensures
            res@ == spec_date_text(self@),
    {
        proof {
            reveal_strlit("+");
            reveal_strlit("-");
        }
        let (y, m, d) = self.ymd();
        let year = if 0 <= y && y <= 9999 {
            padded_int(y as i64, 4)
        } else if y < 0 {
            padded_int(y as i64, 5)
        } else {
            concat("+", u64_text(y as u64).as_str())
        };
        let month = padded_int(m as i64, 2);
        let day = padded_int(d as i64, 2);
        concat(concat(concat(concat(year.as_str(), "-").as_str(), month.as_str()).as_str(), "-").as_str(), day.as_str())
    }

    /// Year, month and day.
    fn ymd(&self) -> (res: (i32, u32, u32))
        ensures
            (res.0 as int, res.1 as int, res.2 as int) == spec_date_ymd(self@),
            1 <= res.1 <= 12,
            1 <= res.2 <= 31,
    {
        proof {
            use_type_invariant(self);
        }
        chrono_ymd(self.days)
    }

    /// The next day, unless this is the last representable date (`checked_add_days(1)`).
    pub fn succ(&self) -> (res: Option<Date>)
        ensures
            res matches Some(d) ==> d@ == self@ + 1,
            res is None <==> self@ == MAX_DAY,
    {
        proof {
            use_type_invariant(self);
        }
        if self.days < MAX_DAY {
            Some(Date { days: self.days + 1 })
        } else {
            None
        }
    }

    /// The previous day, unless this is the first representable date (`checked_sub_days(1)`).
    pub fn pred(&self) -> (res: Option<Date>)
        ensures
            res matches Some(d) ==> d@ == self@ - 1,
            res is None <==> self@ == MIN_DAY,
    {
        proof {
            use_type_invariant(self);
        }
        if self.days > MIN_DAY {
            Some(Date { days: self.days - 1 })
        } else {
            None
        }
    }

    pub fn is_before(&self, other: &Date) -> (res: bool)
        ensures
            res == (self@ < other@),
    {
        self.days < other.days
    }

    pub fn same_day(&self, other: &Date) -> (res: bool)
        ensures
            res == (self@ == other@),
    {
        self.days == other.days
    }

    /// The earlier of two dates.
    pub fn earliest(self, other: Date) -> (res: Date)
        ensures
            res@ == if self@ <= other@ {
                self@
            } else {
                other@
            },
    {
        if self.days <= other.days {
            self
        } else {
            other
        }
    }

    /// The weekday (`Datelike::weekday`), day 1 of the common era being a Monday.
    pub fn weekday(&self) -> (res: Weekday)
        ensures
            res.index() == spec_weekday_index(self@),
    {
        proof {
            use_type_invariant(self);
        }
        // Shift by a multiple of 7 so that the remainder is taken of a non-negative number.
        let shifted: i64 = self.days as i64 - 1 + 98_000_000;
        let r: i64 = shifted % 7;
        proof {
            assert(shifted >= 0);
            assert((self@ - 1) % 7 == shifted % 7) by {
                vstd::arithmetic::div_mod::lemma_mod_add_multiples_vanish(
                    self@ - 1 + 97_999_993,
                    7,
                );
                assert(98_000_000 == 7 * 14_000_000);
                vstd::arithmetic::div_mod::lemma_mod_multiples_vanish(14_000_000, self@ - 1, 7);
            }
        }
        if r == 0 {
            Weekday::Monday
        } else if r == 1 {
            Weekday::Tuesday
        } else if r == 2 {
            Weekday::Wednesday
        } else if r == 3 {
            Weekday::Thursday
        } else if r == 4 {
            Weekday::Friday
        } else if r == 5 {
            Weekday::Saturday
        } else {
            Weekday::Sunday
        }
    }
}

/// A time of day, by its second from midnight.
#[derive(Clone, Copy, Debug, PartialEq, Eq, Hash)]
pub struct TimeOfDay {
    secs: u32,
}

impl TimeOfDay {
    pub closed spec fn second_of_day(self) -> int {
        self.secs as int
    }

    #[verifier::type_invariant]
    pub open spec fn inv(self) -> bool {
        0 <= self.second_of_day() < 86_400
    }
}

impl View for TimeOfDay {
    type V = int;

    open spec fn view(&self) -> int {
        self.second_of_day()
    }
}

impl TimeOfDay {
    /// The time `hour:minute:second`, if valid (`NaiveTime::from_hms_opt`).
    pub fn from_hms(hour: u32, minute: u32, second: u32) -> (res: Option<TimeOfDay>)
        ensures
            res is Some <==> (hour < 24 && minute < 60 && second < 60),
            res matches Some(t) ==> t@ == hour * 3600 + minute * 60 + second,
    {
        if hour < 24 && minute < 60 && second < 60 {
            Some(TimeOfDay { secs: hour * 3600 + minute * 60 + second })
        } else {
            None
        }
    }

    pub fn seconds_from_midnight(&self) -> (res: u32)
        ensures
            res as int == self@,
            res < 86_400,
    {
        proof {
            use_type_invariant(self);
        }
        self.secs
    }
}

/// A UTC instant, by seconds and nanoseconds from the Unix epoch (`DateTime<Utc>`).
#[derive(Clone, Copy, Debug, PartialEq, Eq, Hash)]
pub struct Instant {
    secs: i64,
    nanos: u32,
}

impl Instant {
    pub closed spec fn parts(self) -> (int, int) {
        (self.secs as int, self.nanos as int)
    }

    #[verifier::type_invariant]
    pub open spec fn inv(self) -> bool {
        &&& min_instant_secs() <= self.parts().0 < max_instant_secs()
        &&& 0 <= self.parts().1 < 1_000_000_000
    }
}

impl View for Instant {
    type V = (int, int);

    open spec fn view(&self) -> (int, int) {
        self.parts()
    }
}

/// The seconds and nanoseconds of an instant that `Instant` can hold.
pub open spec fn instant_in_range(p: (int, int)) -> bool {
    &&& min_instant_secs() <= p.0 < max_instant_secs()
    &&& 0 <= p.1 < 1_000_000_000
}

/// `a` is strictly earlier than `b`.
pub open spec fn instant_lt(a: (int, int), b: (int, int)) -> bool {
    a.0 < b.0 || (a.0 == b.0 && a.1 < b.1)
}

/// `a` is earlier than or equal to `b`.
pub open spec fn instant_le(a: (int, int), b: (int, int)) -> bool {
    !instant_lt(b, a)
}

/// The local date and second of the day of a UTC instant in a zone
/// (`DateTime::with_timezone`, then `date_naive` and `num_seconds_from_midnight`), named;
/// the local date is claimed to lie within a day of the UTC date, as every zone's offset is
/// less than a day.
#[verifier::external_body]
fn chrono_local_parts(secs: i64, nanos: u32, zone: &String) -> (res: (i32, u32))
    requires
        min_instant_secs() <= secs < max_instant_secs(),
        nanos < 1_000_000_000,
        spec_zone_known(zone@),
    ensures
        (res.0 as int, res.1 as int) == spec_local_parts(secs as int, nanos as int, zone@),
        res.1 < 86_400,
        (secs as int) / 86_400 + UNIX_EPOCH_DAY - 1 <= res.0 <= (secs as int) / 86_400
            + UNIX_EPOCH_DAY + 1,
{
    let tz: chrono_tz::Tz = zone.parse().unwrap();
    let local = chrono::DateTime::from_timestamp(secs, nanos).unwrap().with_timezone(&tz);
    (local.date_naive().num_days_from_ce(), local.time().num_seconds_from_midnight())
}

/// The UTC instant of a local date and second of the day in a zone when there is exactly
/// one (`TimeZone::from_local_datetime(..).single()`), named; `None` for a local time that
/// a transition skips or repeats.
#[verifier::external_body]
fn chrono_instant_of_local(days: i32, secs_of_day: u32, zone: &String) -> (res: Option<(i64, u32)>)
    requires
        MIN_DAY <= days <= MAX_DAY,
        secs_of_day < 86_400,
        spec_zone_known(zone@),
    ensures
        res matches Some(p) ==> Some((p.0 as int, p.1 as int)) == spec_instant_of_local(
            days as int,
            secs_of_day as int,
            zone@,
        ),
        res is None ==> spec_instant_of_local(days as int, secs_of_day as int, zone@) is None,
{
    let tz: chrono_tz::Tz = zone.parse().unwrap();
    let date = NaiveDate::from_num_days_from_ce_opt(days).unwrap();
    let time = chrono::NaiveTime::from_num_seconds_from_midnight_opt(secs_of_day, 0).unwrap();
    match tz.from_local_datetime(&date.and_time(time)).single() {
        Some(dt) => Some((dt.timestamp(), dt.timestamp_subsec_nanos())),
        None => None,
    }
}

/// `DateTime<Utc>::to_rfc3339` of an instant: claimed to be the RFC 3339 text above.
#[verifier::external_body]
fn chrono_utc_text(secs: i64, nanos: u32) -> (res: String)
    requires
        min_instant_secs() <= secs < max_instant_secs(),
        nanos < 1_000_000_000,
    ensures
        res@ == spec_utc_text(secs as int, nanos as int),
{
    chrono::DateTime::from_timestamp(secs, nanos).unwrap().to_rfc3339()
}

/// `DateTime<Tz>::to_rfc3339` of an instant shown in a zone, named.
#[verifier::external_body]
fn chrono_local_text(secs: i64, nanos: u32, zone: &String) -> (res: String)
    requires
        min_instant_secs() <= secs < max_instant_secs(),
        nanos < 1_000_000_000,
        spec_zone_known(zone@),
    ensures
        res@ == spec_local_text(secs as int, nanos as int, zone@),
{
    let tz: chrono_tz::Tz = zone.parse().unwrap();
    chrono::DateTime::from_timestamp(secs, nanos).unwrap().with_timezone(&tz).to_rfc3339()
}

impl Instant {
    /// The instant of a UTC date and time (`NaiveDateTime::and_utc`), if it is kept.
    pub fn from_utc(date: Date, time: TimeOfDay) -> (res: Option<Instant>)
        ensures
            res matches Some(i) ==> i@ == ((date@ - UNIX_EPOCH_DAY) * 86_400 + time@, 0int),
            res is Some <==> min_instant_secs() <= (date@ - UNIX_EPOCH_DAY) * 86_400 + time@
                < max_instant_secs(),
    {
        proof {
            use_type_invariant(&date);
            use_type_invariant(&time);
        }
        let secs: i64 = (date.days as i64 - UNIX_EPOCH_DAY as i64) * SECONDS_PER_DAY
            + time.secs as i64;
        Instant::from_timestamp(secs, 0)
    }

    /// The instant `secs.nanos` seconds from the Unix epoch, if it is kept.
    pub fn from_timestamp(secs: i64, nanos: u32) -> (res: Option<Instant>)
        ensures
            res matches Some(i) ==> i@ == (secs as int, nanos as int),
            res is Some <==> (min_instant_secs() <= secs < max_instant_secs() && nanos
                < 1_000_000_000),
    {
        let lo: i64 = (MIN_DAY as i64 + 1 - UNIX_EPOCH_DAY as i64) * SECONDS_PER_DAY;
        let hi: i64 = (MAX_DAY as i64 - UNIX_EPOCH_DAY as i64) * SECONDS_PER_DAY;
        if lo <= secs && secs < hi && nanos < 1_000_000_000 {
            Some(Instant { secs, nanos })
        } else {
            None
        }
    }

    pub fn timestamp(&self) -> (res: i64)
        ensures
            res as int == self@.0,
    {
        self.secs
    }

    pub fn subsec_nanos(&self) -> (res: u32)
        ensures
            res as int == self@.1,
    {
        self.nanos
    }

    /// This instant moved by `seconds`, if the result is kept (`+ TimeDelta::seconds`).
    pub fn plus_seconds(&self, seconds: i64) -> (res: Option<Instant>)
        ensures
            res matches Some(i) ==> i@ == (self@.0 + seconds, self@.1),
            res is Some <==> min_instant_secs() <= self@.0 + seconds < max_instant_secs(),
    {
        proof {
            use_type_invariant(self);
        }
        if seconds > 20_000_000_000_000 || seconds < -20_000_000_000_000 {
            return None;
        }
        Instant::from_timestamp(self.secs + seconds, self.nanos)
    }

    pub fn is_before(&self, other: &Instant) -> (res: bool)
        ensures
            res == instant_lt(self@, other@),
    {
        self.secs < other.secs || (self.secs == other.secs && self.nanos < other.nanos)
    }

    /// The earlier of two instants (`Ord::min`).
    pub fn earliest(self, other: Instant) -> (res: Instant)
        ensures
            res@ == if instant_lt(other@, self@) {
                other@
            } else {
                self@
            },
    {
        if other.is_before(&self) {
            other
        } else {
            self
        }
    }

    pub fn to_rfc3339(&self) -> (res: String)
        ensures
            res@ == spec_utc_text(self@.0, self@.1),
    {
        proof {
            use_type_invariant(self);
        }
        chrono_utc_text(self.secs, self.nanos)
    }

    /// This instant as a local date and time of a time zone (`with_timezone`).
    pub fn in_zone(&self, zone: &TimeZone) -> (res: LocalDateTime)
        ensures
            res.instant == *self,
            res.zone@ == zone@,
            (res.date@, res.time@) == spec_local_parts(self@.0, self@.1, zone@),
    {
        proof {
            use_type_invariant(self);
            use_type_invariant(zone);
            assert(self@.0 / 86_400 + UNIX_EPOCH_DAY - 1 >= MIN_DAY);
            assert(self@.0 / 86_400 + UNIX_EPOCH_DAY + 1 <= MAX_DAY);
        }
        let (days, secs) = chrono_local_parts(self.secs, self.nanos, &zone.name);
        LocalDateTime {
            instant: *self,
            zone: zone.clone(),
            date: Date { days },
            time: TimeOfDay { secs },
        }
    }
}

/// A time zone of the IANA database that `chrono_tz` knows, by its name.
#[derive(Debug, PartialEq, Eq)]
pub struct TimeZone {
    name: String,
}

impl TimeZone {
    pub closed spec fn zone_name(self) -> Seq<char> {
        self.name@
    }

    #[verifier::type_invariant]
    pub open spec fn inv(self) -> bool {
        spec_zone_known(self.zone_name())
    }
}

impl View for TimeZone {
    type V = Seq<char>;

    open spec fn view(&self) -> Seq<char> {
        self.zone_name()
    }
}

/// Whether `chrono_tz::Tz::from_str` accepts a name, named.
#[verifier::external_body]
fn chrono_zone_known(name: &str) -> (res: bool)
    ensures
        res == spec_zone_known(name@),
{
    name.parse::<chrono_tz::Tz>().is_ok()
}

impl TimeZone {
    /// The zone of an IANA name, if `chrono_tz` knows it (`Tz::from_str`).
    pub fn named(name: &str) -> (res: Option<TimeZone>)
        ensures
            res is Some <==> spec_zone_known(name@),
            res matches Some(z) ==> z@ == name@,
    {
        if chrono_zone_known(name) {
            Some(TimeZone { name: name.to_string() })
        } else {
            None
        }
    }

    pub fn name(&self) -> (res: String)
        ensures
            res@ == self@,
    {
        self.name.clone()
    }

    /// The UTC instant of an unambiguous local date and time in this zone
    /// (`from_local_datetime(..).single()`), if it exists and is kept.
    pub fn instant_of_local(&self, date: Date, time: TimeOfDay) -> (res: Option<Instant>)
        ensures
            res matches Some(i) ==> Some(i@) == spec_instant_of_local(date@, time@, self@),
            spec_instant_of_local(date@, time@, self@) is None ==> res is None,
            spec_instant_of_local(date@, time@, self@) is Some && instant_in_range(
                spec_instant_of_local(date@, time@, self@)->0,
            ) ==> res is Some,
    {
        proof {
            use_type_invariant(self);
            use_type_invariant(&date);
            use_type_invariant(&time);
        }
        match chrono_instant_of_local(date.days, time.secs, &self.name) {
            Some((secs, nanos)) => Instant::from_timestamp(secs, nanos),
            None => None,
        }
    }
}

/// The name `chrono_tz` gives the zone `Asia::Shanghai` (`Tz::name`), which `Tz::from_str`
/// accepts.
#[verifier::external_body]
fn chrono_shanghai_name() -> (res: String)
    ensures
        res@ == "Asia/Shanghai"@,
        spec_zone_known(res@),
{
    chrono_tz::Asia::Shanghai.name().to_string()
}

impl TimeZone {
    /// The zone `Asia/Shanghai`.
    pub fn shanghai() -> (res: TimeZone)
        ensures
            res@ == "Asia/Shanghai"@,
    {
        TimeZone { name: chrono_shanghai_name() }
    }
}

impl Clone for TimeZone {
    fn clone(&self) -> (res: TimeZone)
        ensures
            res@ == self@,
    {
        proof {
            use_type_invariant(self);
        }
        TimeZone { name: self.name.clone() }
    }
}

/// An instant together with its local date and time in a time zone (`DateTime<Tz>`).
#[derive(Debug)]
pub struct LocalDateTime {
    pub instant: Instant,
    pub zone: TimeZone,
    pub date: Date,
    pub time: TimeOfDay,
}

impl LocalDateTime {
    /// `DateTime<Tz>::to_rfc3339`.
    pub fn to_rfc3339(&self) -> (res: String)
        ensures
            res@ == spec_local_text(self.instant@.0, self.instant@.1, self.zone@),
    {
        proof {
            use_type_invariant(&self.instant);
            use_type_invariant(&self.zone);
        }
        chrono_local_text(self.instant.secs, self.instant.nanos, &self.zone.name)
    }
}

} // verus!
