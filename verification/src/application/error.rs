use vstd::prelude::*;

use crate::domain::payroll::PayrollError;
use crate::persistence::PersistenceError;
use crate::text::{concat, i32_text, spec_i32_text, spec_u64_text, u64_text};

verus! {

/// Why an application operation was refused.
#[derive(Debug)]
pub enum ApplicationError {
    Payroll(PayrollError),
    Persistence(PersistenceError),
    /// The configured local date/time does not exist or is ambiguous.
    InvalidLocalDateTime,
    /// A setting the salary configuration needs is missing.
    IncompleteSalaryConfiguration(&'static str),
    /// No salary has been configured yet.
    SalaryNotInitialized,
    /// A different salary is already configured for the current cycle.
    SalaryAlreadyInitialized,
    /// The salary is not a positive decimal amount.
    InvalidSalary,
    /// The year and month do not name a representable calendar month.
    InvalidCalendarMonth { year: i32, month: u32 },
    /// A frozen cycle was computed with another calendar version than the one in use.
    CalendarVersionMismatch(String),
    /// An exact amount left the decimal range.
    AmountOutOfRange,
}

impl ApplicationError {
    /// The error's message, as a text.
    pub open spec fn message_spec(self) -> Seq<char> {
        match self {
            ApplicationError::Payroll(e) => e.message_spec(),
            ApplicationError::Persistence(e) => e.message_spec(),
            ApplicationError::InvalidLocalDateTime => "unable to resolve the configured local date/time"@,
            ApplicationError::IncompleteSalaryConfiguration(key) => "salary configuration is incomplete: missing `"@
                + key@ + "`"@,
            ApplicationError::SalaryNotInitialized => "salary has not been initialized"@,
            ApplicationError::SalaryAlreadyInitialized =>
                "salary is already initialized for the current cycle with another amount"@,
            ApplicationError::InvalidSalary => "monthly salary must be a positive decimal amount"@,
            ApplicationError::InvalidCalendarMonth { year, month } => "invalid calendar month "@ + spec_i32_text(year)
                + "-"@ + spec_u64_text(month as u64),
            ApplicationError::CalendarVersionMismatch(id) => "payroll cycle `"@ + id@
                + "` uses a different calendar version"@,
            ApplicationError::AmountOutOfRange => "an exact amount left the supported decimal range"@,
        }
    }

    /// The error's message.
    pub fn message(&self) -> (res: String)
        ensures
            res@ == self.message_spec(),
    {
        match self {
            ApplicationError::Payroll(e) => e.message(),
            ApplicationError::Persistence(e) => e.message(),
            ApplicationError::InvalidLocalDateTime => "unable to resolve the configured local date/time".to_string(),
            ApplicationError::IncompleteSalaryConfiguration(key) => concat(
                concat("salary configuration is incomplete: missing `", key).as_str(),
                "`",
            ),
            ApplicationError::SalaryNotInitialized => "salary has not been initialized".to_string(),
            ApplicationError::SalaryAlreadyInitialized => "salary is already initialized for the current cycle with another amount".to_string(),
            ApplicationError::InvalidSalary => "monthly salary must be a positive decimal amount".to_string(),
            ApplicationError::InvalidCalendarMonth { year, month } => concat(
                concat(concat("invalid calendar month ", i32_text(*year).as_str()).as_str(), "-").as_str(),
                u64_text(*month as u64).as_str(),
            ),
            ApplicationError::CalendarVersionMismatch(id) => concat(
                concat("payroll cycle `", id.as_str()).as_str(),
                "` uses a different calendar version",
            ),
            ApplicationError::AmountOutOfRange => "an exact amount left the supported decimal range".to_string(),
        }
    }
}

} // verus!
