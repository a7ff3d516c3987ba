use vstd::prelude::*;

use crate::text::{concat, padded_year_month, spec_u64_text, u64_text, year_month_text};

verus! {

/// Why a payroll cycle or a payroll snapshot cannot be computed.
#[derive(Debug, PartialEq, Eq)]
pub enum PayrollError {
    /// The month is not in `1..=12` (or its first day does not exist).
    InvalidMonth(u32),
    /// The monthly salary is negative.
    NegativeSalary,
    /// The payroll month has no workday of its own.
    NoWorkdays { year: i32, month: u32 },
    /// Date arithmetic left the range of representable dates.
    DateOverflow,
    /// The cycle was frozen with another calendar version than the one in use.
    CalendarVersionMismatch { cycle_version: String, calendar_version: String },
}

} // verus!

verus! {

impl PayrollError {
    /// The error's message, as a text.
    pub open spec fn message_spec(self) -> Seq<char> {
        match self {
            PayrollError::InvalidMonth(m) => "month must be in 1..=12, got "@ + spec_u64_text(m as u64),
            PayrollError::NegativeSalary => "monthly salary cannot be negative"@,
            PayrollError::NoWorkdays { year, month } => "the payroll month "@ + year_month_text(year, month)
                + " has no workdays"@,
            PayrollError::DateOverflow => "date arithmetic exceeded the supported date range"@,
            PayrollError::CalendarVersionMismatch { cycle_version, calendar_version } =>
                "calendar version mismatch: cycle uses '"@ + cycle_version@ + "', calculation uses '"@
                + calendar_version@ + "'"@,
        }
    }

    /// The error's message.
    pub fn message(&self) -> (res: String)
        ensures
            res@ == self.message_spec(),
    {
        match self {
            PayrollError::InvalidMonth(m) => concat("month must be in 1..=12, got ", u64_text(*m as u64).as_str()),
            PayrollError::NegativeSalary => "monthly salary cannot be negative".to_string(),
            PayrollError::NoWorkdays { year, month } => concat(
                concat("the payroll month ", padded_year_month(*year, *month).as_str()).as_str(),
                " has no workdays",
            ),
            PayrollError::DateOverflow => "date arithmetic exceeded the supported date range".to_string(),
            PayrollError::CalendarVersionMismatch { cycle_version, calendar_version } => concat(
                concat(
                    concat(
                        concat("calendar version mismatch: cycle uses '", cycle_version.as_str()).as_str(),
                        "', calculation uses '",
                    ).as_str(),
                    calendar_version.as_str(),
                ).as_str(),
                "'",
            ),
        }
    }
}

} // verus!
