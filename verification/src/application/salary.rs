//! Salary configuration: the first salary, the salary of the next cycles, the current cycle
//! and the calendar months.
use vstd::prelude::*;

use super::{
    ApplicationContext, ApplicationEnvironment, ApplicationError, CalendarDayDto, CalendarMonthDto,
    SalaryConfigurationDto, SalaryCycleDto,
};
use crate::domain::payroll::{for_month_spec, next_month_start_spec, PayrollCycle, WorkCalendar};
use crate::domain::rewards::RewardValues;
use crate::money::{money_value_eq, spec_decimal_parse, spec_decimal_text, Money};
use crate::persistence::{cycle_lookup, has_word_char, last_value_for, setting_lookup, LedgerStore, PayrollCycleRecord};
use crate::text::lemma_year_month_not_blank;
use crate::text::{is_word_char, padded_year_month, spec_trim, text_eq, trimmed, year_month_text};
use crate::time::{
    spec_date_from_ymd, spec_date_text, spec_date_ymd, spec_local_parts, spec_weekday_index, Date, Instant, Weekday,
    MAX_DAY,
};

verus! {

pub const SETTING_SALARY_INITIALIZED: &'static str = "salary_initialized";

pub const SETTING_SALARY_TIMEZONE: &'static str = "salary_timezone";

pub const SETTING_CURRENT_CYCLE_ID: &'static str = "salary_current_cycle_id";

pub const SETTING_NEXT_CYCLE_SALARY: &'static str = "next_cycle_salary_exact";

pub const SETTING_SALARY_CALENDAR_VERSION: &'static str = "salary_calendar_version";

/// The id of the payroll cycle of a month: `format!("{year:04}-{month:02}")`.
pub fn cycle_id(year: i32, month: u32) -> (res: String)
    ensures
        res@ == year_month_text(year, month),
{
    padded_year_month(year, month)
}

/// The code of a weekday.
pub open spec fn weekday_code_spec(w: Weekday) -> Seq<char> {
    match w {
        Weekday::Monday => "MONDAY"@,
        Weekday::Tuesday => "TUESDAY"@,
        Weekday::Wednesday => "WEDNESDAY"@,
        Weekday::Thursday => "THURSDAY"@,
        Weekday::Friday => "FRIDAY"@,
        Weekday::Saturday => "SATURDAY"@,
        Weekday::Sunday => "SUNDAY"@,
    }
}

/// The code of a weekday.
pub fn weekday_code(weekday: Weekday) -> (res: &'static str)
    ensures
        res@ == weekday_code_spec(weekday),
{
    match weekday {
        Weekday::Monday => "MONDAY",
        Weekday::Tuesday => "TUESDAY",
        Weekday::Wednesday => "WEDNESDAY",
        Weekday::Thursday => "THURSDAY",
        Weekday::Friday => "FRIDAY",
        Weekday::Saturday => "SATURDAY",
        Weekday::Sunday => "SUNDAY",
    }
}

/// The salary a text gives: the decimal of the text without surrounding whitespace, if it
/// is positive.
pub open spec fn positive_salary_of(text: Seq<char>) -> Option<(int, nat)> {
    match spec_decimal_parse(spec_trim(text)) {
        Some(p) => if p.0 > 0 {
            Some(p)
        } else {
            None
        },
        None => None,
    }
}

/// Parses a positive salary, ignoring surrounding whitespace.
pub fn parse_positive_salary(value: &str) -> (res: Result<Money, ApplicationError>)
    ensures
        res is Ok <==> positive_salary_of(value@) is Some,
        res matches Ok(m) ==> Some(m@) == positive_salary_of(value@),
        res matches Err(e) ==> e is InvalidSalary,
{
    let text = trimmed(value);
    let salary = match Money::parse(text.as_str()) {
        Some(m) => m,
        None => {
            return Err(ApplicationError::InvalidSalary);
        },
    };
    if salary.mantissa() <= 0 {
        return Err(ApplicationError::InvalidSalary);
    }
    Ok(salary)
}

/// The setting says the salary is initialized.
pub open spec fn initialized_in(repository: LedgerStore) -> bool {
    setting_lookup(repository.settings_view(), SETTING_SALARY_INITIALIZED@) == Some("true"@)
}

/// The local date of an instant in the environment's zone.
pub open spec fn local_day(environment: ApplicationEnvironment, at: Instant) -> int {
    spec_local_parts(at@.0, at@.1, environment.timezone@).0
}

/// `d` shows the cycle `cycle` under the id `id`.
pub open spec fn shows_cycle(d: SalaryCycleDto, id: Seq<char>, cycle: PayrollCycle) -> bool {
    &&& d.cycle_id@ == id
    &&& d.start_date@ == spec_date_text(cycle.start_date@)
    &&& d.end_date@ == spec_date_text(cycle.end_date@)
    &&& d.workday_count == cycle.workday_count
    &&& d.monthly_salary_exact@ == spec_decimal_text(cycle.monthly_salary@)
    &&& d.daily_salary_exact@ == spec_decimal_text(cycle.pay_rates_spec().0)
    &&& d.hourly_salary_exact@ == spec_decimal_text(cycle.pay_rates_spec().1)
    &&& d.per_second_salary_exact@ == spec_decimal_text(cycle.pay_rates_spec().2)
}

impl SalaryCycleDto {
    pub fn from_cycle(cycle_id: &str, cycle: &PayrollCycle) -> (res: SalaryCycleDto)
        requires
            cycle.workday_count > 0,
        ensures
            shows_cycle(res, cycle_id@, *cycle),
    {
        let rates = cycle.pay_rates();
        let values = RewardValues::for_cycle(cycle);
        SalaryCycleDto {
            cycle_id: cycle_id.to_string(),
            start_date: cycle.start_date.to_text(),
            end_date: cycle.end_date.to_text(),
            workday_count: cycle.workday_count,
            monthly_salary_exact: cycle.monthly_salary.to_text(),
            daily_salary_exact: rates.daily.to_text(),
            hourly_salary_exact: rates.hourly.to_text(),
            per_second_salary_exact: rates.per_second.to_text(),
            silver_value_exact: values.silver.to_text(),
            gold_value_exact: values.gold.to_text(),
            diamond_value_exact: values.diamond.to_text(),
        }
    }
}

/// A usable context: its cycle has workdays and was computed with the calendar in use.
pub open spec fn usable_context(c: ApplicationContext, environment: ApplicationEnvironment) -> bool {
    &&& c.cycle.workday_count > 0
    &&& c.cycle.timezone@ == environment.timezone@
    &&& c.cycle.calendar_version@ == environment.calendar.version_view()
    &&& c.calendar.version_view() == environment.calendar.version_view()
    &&& c.calendar.holiday_days() == environment.calendar.holiday_days()
}

/// The cycle `id` is frozen in the ledger with a salary other than zero and other than
/// `salary`.
pub open spec fn frozen_with_other_salary(repository: LedgerStore, id: Seq<char>, salary: (int, nat)) -> bool {
    &&& cycle_lookup(repository.cycles_view(), id) is Some
    &&& cycle_lookup(repository.cycles_view(), id)->0.monthly_salary@.0 != 0
    &&& !money_value_eq(cycle_lookup(repository.cycles_view(), id)->0.monthly_salary@, salary)
}

/// The context's cycle is the one frozen in the ledger under its id, or, when none was, a
/// new one with the salary set for the next cycles.
pub open spec fn cycle_taken_or_made(repository: LedgerStore, c: ApplicationContext) -> bool {
    match cycle_lookup(repository.cycles_view(), c.cycle_id@) {
        Some(r) => {
            &&& c.cycle.start_date == r.start_date
            &&& c.cycle.end_date == r.end_date
            &&& c.cycle.monthly_salary == r.monthly_salary
            &&& c.cycle.workday_count == r.workday_count
        },
        None => {
            &&& setting_lookup(repository.settings_view(), SETTING_NEXT_CYCLE_SALARY@) is Some
            &&& positive_salary_of(setting_lookup(repository.settings_view(), SETTING_NEXT_CYCLE_SALARY@)->0)
                == Some(c.cycle.monthly_salary@)
        },
    }
}

pub struct SalaryConfigurationService;

impl SalaryConfigurationService {
    /// Whether the salary has been initialized.
    fn is_initialized(repository: &LedgerStore) -> (res: bool)
        ensures
            res == initialized_in(*repository),
    {
        proof {
            reveal_strlit("true");
        }
        match repository.setting(SETTING_SALARY_INITIALIZED) {
            Some(v) => text_eq(v.as_str(), "true"),
            None => false,
        }
    }

    /// The context of a frozen cycle, in the environment's zone; refused when the cycle was
    /// computed with another calendar version.
    fn context_from_record(environment: &ApplicationEnvironment, record: PayrollCycleRecord) -> (res: Result<
        ApplicationContext,
        ApplicationError,
    >)
        requires
            record.workday_count > 0,
        ensures
            res is Err <==> record.calendar_version@ != environment.calendar.version_view(),
            res matches Err(e) ==> e matches ApplicationError::CalendarVersionMismatch(id) && id@
                == record.cycle_id@,
            res matches Ok(c) ==> {
                &&& usable_context(c, *environment)
                &&& c.cycle_id@ == record.cycle_id@
                &&& c.cycle.salary_month == record.salary_month
                &&& c.cycle.start_date == record.start_date
                &&& c.cycle.end_date == record.end_date
                &&& c.cycle.monthly_salary == record.monthly_salary
                &&& c.cycle.workday_count == record.workday_count
            },
    {
        if !text_eq(record.calendar_version.as_str(), environment.calendar.version()) {
            return Err(ApplicationError::CalendarVersionMismatch(record.cycle_id));
        }
        let cycle = PayrollCycle {
            salary_month: record.salary_month,
            start_date: record.start_date,
            end_date: record.end_date,
            monthly_salary: record.monthly_salary,
            workday_count: record.workday_count,
            timezone: environment.timezone.clone(),
            calendar_version: record.calendar_version,
        };
        Ok(ApplicationContext::new(record.cycle_id, cycle, environment.calendar.clone()))
    }

    /// Stores the salary configuration: initialized, the zone, the current cycle, the next
    /// cycles' salary and the calendar version.
    fn persist_configuration(
        repository: &mut LedgerStore,
        environment: &ApplicationEnvironment,
        cycle_id: &str,
        salary: Money,
        at_utc: Instant,
    ) -> (res: Result<(), ApplicationError>)
        ensures
            res is Ok,
            setting_lookup(final(repository).settings_view(), SETTING_SALARY_INITIALIZED@) == Some("true"@),
            setting_lookup(final(repository).settings_view(), SETTING_CURRENT_CYCLE_ID@) == Some(cycle_id@),
            setting_lookup(final(repository).settings_view(), SETTING_NEXT_CYCLE_SALARY@) == Some(
                spec_decimal_text(salary@),
            ),
            final(repository).same_rows_but_settings(*old(repository)),
    {
        let mut pairs: Vec<(String, String)> = Vec::new();
        pairs.push((SETTING_SALARY_INITIALIZED.to_string(), "true".to_string()));
        pairs.push((SETTING_SALARY_TIMEZONE.to_string(), environment.timezone.name()));
        pairs.push((SETTING_CURRENT_CYCLE_ID.to_string(), cycle_id.to_string()));
        pairs.push((SETTING_NEXT_CYCLE_SALARY.to_string(), salary.to_text()));
        pairs.push((SETTING_SALARY_CALENDAR_VERSION.to_string(), environment.calendar.version().to_string()));
        proof {
            reveal_strlit("salary_initialized");
            reveal_strlit("salary_timezone");
            reveal_strlit("salary_current_cycle_id");
            reveal_strlit("next_cycle_salary_exact");
            reveal_strlit("salary_calendar_version");
            let k = seq![
                SETTING_SALARY_INITIALIZED@,
                SETTING_SALARY_TIMEZONE@,
                SETTING_CURRENT_CYCLE_ID@,
                SETTING_NEXT_CYCLE_SALARY@,
                SETTING_SALARY_CALENDAR_VERSION@,
            ];
            assert(pairs@.len() == 5);
            assert forall|i: int| 0 <= i < 5 implies pairs@[i].0@ == #[trigger] k[i] by {}
            assert forall|i: int| 0 <= i < pairs@.len() implies has_word_char((#[trigger] pairs@[i]).0@) by {
                assert(is_word_char(pairs@[i].0@[0]));
            }
            assert(SETTING_SALARY_INITIALIZED@ != SETTING_SALARY_TIMEZONE@) by {
                assert(SETTING_SALARY_INITIALIZED@[7] != SETTING_SALARY_TIMEZONE@[7]);
            }
            assert(SETTING_SALARY_INITIALIZED@ != SETTING_CURRENT_CYCLE_ID@) by {
                assert(SETTING_SALARY_INITIALIZED@[7] != SETTING_CURRENT_CYCLE_ID@[7]);
            }
            assert(SETTING_SALARY_INITIALIZED@ != SETTING_NEXT_CYCLE_SALARY@) by {
                assert(SETTING_SALARY_INITIALIZED@[0] != SETTING_NEXT_CYCLE_SALARY@[0]);
            }
            assert(SETTING_SALARY_INITIALIZED@ != SETTING_SALARY_CALENDAR_VERSION@) by {
                assert(SETTING_SALARY_INITIALIZED@[7] != SETTING_SALARY_CALENDAR_VERSION@[7]);
            }
            assert(SETTING_CURRENT_CYCLE_ID@ != SETTING_NEXT_CYCLE_SALARY@) by {
                assert(SETTING_CURRENT_CYCLE_ID@[0] != SETTING_NEXT_CYCLE_SALARY@[0]);
            }
            assert(SETTING_CURRENT_CYCLE_ID@ != SETTING_SALARY_CALENDAR_VERSION@) by {
                assert(SETTING_CURRENT_CYCLE_ID@[8] != SETTING_SALARY_CALENDAR_VERSION@[8]);
            }
            assert(SETTING_NEXT_CYCLE_SALARY@ != SETTING_SALARY_CALENDAR_VERSION@) by {
                assert(SETTING_NEXT_CYCLE_SALARY@[0] != SETTING_SALARY_CALENDAR_VERSION@[0]);
            }
            reveal_with_fuel(last_value_for, 6);
        }
        match repository.set_settings(pairs.as_slice(), at_utc) {
            Ok(()) => Ok(()),
            Err(e) => Err(ApplicationError::Persistence(e)),
        }
    }
}

/// The year and month of the local date of an instant in the environment's zone.
pub open spec fn local_year_month(environment: ApplicationEnvironment, at: Instant) -> (int, int) {
    (spec_date_ymd(local_day(environment, at)).0, spec_date_ymd(local_day(environment, at)).1)
}

/// The id of the cycle of the local month of an instant.
pub open spec fn current_cycle_id(environment: ApplicationEnvironment, at: Instant) -> Seq<char> {
    year_month_text(
        local_year_month(environment, at).0 as i32,
        local_year_month(environment, at).1 as u32,
    )
}

/// The salary set for the next cycles.
pub open spec fn next_salary_setting(repository: LedgerStore) -> Option<Seq<char>> {
    setting_lookup(repository.settings_view(), SETTING_NEXT_CYCLE_SALARY@)
}

/// The salary set for the next cycles is a positive decimal and makes a cycle of the
/// current local month.
pub open spec fn next_salary_makes_cycle(
    repository: LedgerStore,
    environment: ApplicationEnvironment,
    at: Instant,
) -> bool {
    let next = next_salary_setting(repository);
    &&& next is Some
    &&& salary_text_makes_cycle(next->0, environment, at)
}

/// A salary text is a positive decimal that makes a cycle of the current local month.
pub open spec fn salary_text_makes_cycle(text: Seq<char>, environment: ApplicationEnvironment, at: Instant) -> bool {
    &&& positive_salary_of(text) is Some
    &&& for_month_spec(
        environment.calendar,
        local_year_month(environment, at).0 as i32,
        local_year_month(environment, at).1 as u32,
        positive_salary_of(text)->0,
    ) is Ok
}

/// The cycle of the current local month can be had: its frozen snapshot was computed with
/// the calendar in use, or, none being frozen, the salary of the next cycles makes one.
pub open spec fn current_cycle_available(
    repository: LedgerStore,
    environment: ApplicationEnvironment,
    at: Instant,
) -> bool {
    match cycle_lookup(repository.cycles_view(), current_cycle_id(environment, at)) {
        Some(r) => r.calendar_version@ == environment.calendar.version_view(),
        None => next_salary_makes_cycle(repository, environment, at),
    }
}

/// The salary of the current cycle: the frozen one, or the one set for the next cycles.
pub open spec fn current_salary(repository: LedgerStore, environment: ApplicationEnvironment, at: Instant) -> (
    int,
    nat,
) {
    match cycle_lookup(repository.cycles_view(), current_cycle_id(environment, at)) {
        Some(r) => r.monthly_salary@,
        None => positive_salary_of(next_salary_setting(repository)->0)->0,
    }
}

/// Dropping a cycle's rows leaves no cycle under its id.
proof fn lemma_cycles_kept_lookup(s: Seq<PayrollCycleRecord>, c: Seq<char>)
    ensures
        cycle_lookup(crate::persistence::cycles_kept(s, c), c) is None,
{
    broadcast use vstd::seq_lib::group_filter_ensures;

    let kept = crate::persistence::cycles_kept(s, c);
    assert forall|i: int| 0 <= i < kept.len() implies (#[trigger] kept[i]).cycle_id@ != c by {
        let pred = |r: PayrollCycleRecord| r.cycle_id@ != c;
        assert(pred(kept[i]));
    }
}

/// What initializing the salary with `text` at `at` does to the ledger (`old` before, `new`
/// after) and answers.
pub open spec fn salary_initialized(
    old: LedgerStore,
    new: LedgerStore,
    environment: ApplicationEnvironment,
    text: Seq<char>,
    at: Instant,
    res: Result<(SalaryConfigurationDto, ApplicationContext), ApplicationError>,
) -> bool {
    let salary = positive_salary_of(text);
    let id = current_cycle_id(environment, at);
    &&& salary is None ==> res is Err && res->Err_0 is InvalidSalary && new.unchanged_from(old)
    &&& (res matches Ok(pair) ==> {
        &&& usable_context(pair.1, environment)
        &&& money_value_eq(pair.1.cycle.monthly_salary@, salary->0)
        &&& initialized_in(new)
        &&& pair.1.cycle_id@ == id
        &&& cycle_lookup(new.cycles_view(), pair.1.cycle_id@) is Some
        &&& pair.0.is_initialized
        &&& pair.0.current_cycle is Some
        &&& shows_cycle(pair.0.current_cycle->0, pair.1.cycle_id@, pair.1.cycle)
        &&& pair.0.next_cycle_salary_exact is Some
        &&& next_salary_setting(new) == Some(pair.0.next_cycle_salary_exact->0@)
    })
    &&& res is Err && res->Err_0 is SalaryAlreadyInitialized ==> salary is Some && ((initialized_in(old)
        && !money_value_eq(current_salary(old, environment, at), salary->0)) || (!initialized_in(old)
        && frozen_with_other_salary(old, id, salary->0)))
    &&& !initialized_in(old) && salary is Some && frozen_with_other_salary(old, id, salary->0) ==> res is Err
        && res->Err_0 is SalaryAlreadyInitialized && new.unchanged_from(old)
    &&& initialized_in(old) && salary is Some && current_cycle_available(old, environment, at)
        && next_salary_setting(old) is Some ==> (res is Ok <==> money_value_eq(
        current_salary(old, environment, at),
        salary->0,
    )) && (res is Err ==> res->Err_0 is SalaryAlreadyInitialized)
    &&& initialized_in(old) && res is Ok ==> cycle_taken_or_made(old, res->Ok_0.1)
    &&& !initialized_in(old) && salary is Some && (cycle_lookup(old.cycles_view(), id) matches Some(r)
        ==> r.monthly_salary@.0 == 0) && for_month_spec(
        environment.calendar,
        local_year_month(environment, at).0 as i32,
        local_year_month(environment, at).1 as u32,
        salary->0,
    ) is Ok ==> res is Ok
    &&& !initialized_in(old) && res is Ok ==> {
        &&& next_salary_setting(new) == Some(spec_decimal_text(salary->0))
        &&& setting_lookup(new.settings_view(), SETTING_CURRENT_CYCLE_ID@) == Some(id)
        &&& res->Ok_0.1.cycle.monthly_salary@ == salary->0
    }
}

impl SalaryConfigurationService {
    /// Records `cycle_id` as the current cycle.
    fn set_current_cycle(repository: &mut LedgerStore, cycle_id: &str, at_utc: Instant)
        ensures
            setting_lookup(final(repository).settings_view(), SETTING_CURRENT_CYCLE_ID@) == Some(cycle_id@),
            forall|k: Seq<char>|
                k != SETTING_CURRENT_CYCLE_ID@ ==> #[trigger] setting_lookup(final(repository).settings_view(), k)
                    == setting_lookup(old(repository).settings_view(), k),
            final(repository).same_rows_but_settings(*old(repository)),
    {
        proof {
            reveal_strlit("salary_current_cycle_id");
            assert(is_word_char(SETTING_CURRENT_CYCLE_ID@[0]));
        }
        let r = repository.set_setting(SETTING_CURRENT_CYCLE_ID, cycle_id, at_utc);
    }

    /// The context of the cycle of the current local month: its frozen snapshot when there
    /// is one, otherwise a new cycle with the next cycles' salary, frozen now. The cycle is
    /// recorded as current.
    fn ensure_current_cycle(
        repository: &mut LedgerStore,
        environment: &ApplicationEnvironment,
        at_utc: Instant,
    ) -> (res: Result<ApplicationContext, ApplicationError>)
        ensures
            res matches Ok(c) ==> {
                &&& usable_context(c, *environment)
                &&& c.cycle_id@ == current_cycle_id(*environment, at_utc)
                &&& cycle_lookup(final(repository).cycles_view(), c.cycle_id@) is Some
                &&& setting_lookup(final(repository).settings_view(), SETTING_CURRENT_CYCLE_ID@) == Some(c.cycle_id@)
                &&& cycle_taken_or_made(*old(repository), c)
            },
            res matches Err(e) ==> (e is IncompleteSalaryConfiguration ==> setting_lookup(
                old(repository).settings_view(),
                SETTING_NEXT_CYCLE_SALARY@,
            ) is None),
            res is Ok <==> current_cycle_available(*old(repository), *environment, at_utc),
            res is Err ==> final(repository).unchanged_from(*old(repository)),
            res is Err ==> !(res->Err_0 is SalaryAlreadyInitialized),
            cycle_lookup(old(repository).cycles_view(), current_cycle_id(*environment, at_utc)) is None
                && next_salary_setting(*old(repository)) is None ==> res is Err
                && res->Err_0 is IncompleteSalaryConfiguration,
            cycle_lookup(old(repository).cycles_view(), current_cycle_id(*environment, at_utc)) is Some
                ==> final(repository).cycles_view() == old(repository).cycles_view(),
            forall|k: Seq<char>|
                k != SETTING_CURRENT_CYCLE_ID@ ==> #[trigger] setting_lookup(final(repository).settings_view(), k)
                    == setting_lookup(old(repository).settings_view(), k),
    {
        let local_date = at_utc.in_zone(&environment.timezone).date;
        let year = local_date.year();
        let month = local_date.month();
        let id = cycle_id(year, month);
        match repository.payroll_cycle(id.as_str()) {
            Some(record) => {
                let context = match Self::context_from_record(environment, record) {
                    Ok(c) => c,
                    Err(e) => {
                        return Err(e);
                    },
                };
                Self::set_current_cycle(repository, id.as_str(), at_utc);
                return Ok(context);
            },
            None => {},
        }
        let next_salary = match repository.setting(SETTING_NEXT_CYCLE_SALARY) {
            Some(v) => v,
            None => {
                return Err(ApplicationError::IncompleteSalaryConfiguration(SETTING_NEXT_CYCLE_SALARY));
            },
        };
        let salary = match parse_positive_salary(next_salary.as_str()) {
            Ok(s) => s,
            Err(e) => {
                return Err(e);
            },
        };
        let cycle = match PayrollCycle::for_month(year, month, salary, environment.timezone.clone(), &environment.calendar) {
            Ok(c) => c,
            Err(e) => {
                return Err(ApplicationError::Payroll(e));
            },
        };
        proof {
            lemma_year_month_not_blank(year, month);
        }
        match repository.ensure_payroll_cycle(id.as_str(), &cycle, at_utc) {
            Ok(_) => {},
            Err(e) => {
                return Err(ApplicationError::Persistence(e));
            },
        }
        Self::set_current_cycle(repository, id.as_str(), at_utc);
        Ok(ApplicationContext::new(id, cycle, environment.calendar.clone()))
    }

    /// The salary configuration at `at_utc`: whether a salary is initialized, the zone, the
    /// local year and month, and (once initialized) the current cycle, which is created and
    /// frozen if need be, and the next cycles' salary.
    pub fn get_salary_configuration(
        repository: &mut LedgerStore,
        environment: &ApplicationEnvironment,
        at_utc: Instant,
    ) -> (res: Result<(SalaryConfigurationDto, Option<ApplicationContext>), ApplicationError>)
        ensures
            !initialized_in(*old(repository)) ==> res is Ok && final(repository).unchanged_from(*old(repository)),
            res matches Ok(pair) ==> {
                &&& pair.0.is_initialized == initialized_in(*old(repository))
                &&& pair.0.timezone@ == environment.timezone@
                &&& pair.0.current_year as int == local_year_month(*environment, at_utc).0
                &&& pair.0.current_month as int == local_year_month(*environment, at_utc).1
                &&& (pair.1 is None <==> !initialized_in(*old(repository)))
                &&& (pair.0.current_cycle is None <==> !initialized_in(*old(repository)))
                &&& (pair.0.next_cycle_salary_exact is None <==> !initialized_in(*old(repository)))
                &&& pair.1 matches Some(c) ==> cycle_lookup(final(repository).cycles_view(), c.cycle_id@) is Some
                &&& pair.1 matches Some(c) ==> cycle_taken_or_made(*old(repository), c)
                &&& pair.1 matches Some(c) ==> (usable_context(c, *environment) && c.cycle_id@ == current_cycle_id(
                    *environment,
                    at_utc,
                ) && pair.0.current_cycle is Some && shows_cycle(pair.0.current_cycle->0, c.cycle_id@, c.cycle))
                &&& pair.0.next_cycle_salary_exact matches Some(v) ==> setting_lookup(
                    final(repository).settings_view(),
                    SETTING_NEXT_CYCLE_SALARY@,
                ) == Some(v@)
            },
            initialized_in(*old(repository)) && current_cycle_available(*old(repository), *environment, at_utc)
                && next_salary_setting(*old(repository)) is Some ==> res is Ok,
            initialized_in(*old(repository)) && !current_cycle_available(*old(repository), *environment, at_utc)
                ==> res is Err && final(repository).unchanged_from(*old(repository)),
            res matches Err(e) ==> (e is IncompleteSalaryConfiguration ==> next_salary_setting(*old(repository))
                is None),
            res is Err ==> !(res->Err_0 is SalaryAlreadyInitialized),
            initialized_in(*old(repository)) && next_salary_setting(*old(repository)) is None
                && (cycle_lookup(old(repository).cycles_view(), current_cycle_id(*environment, at_utc)) matches Some(
                r) ==> r.calendar_version@ == environment.calendar.version_view()) ==> res is Err
                && res->Err_0 is IncompleteSalaryConfiguration,
            cycle_lookup(old(repository).cycles_view(), current_cycle_id(*environment, at_utc)) is Some
                ==> final(repository).cycles_view() == old(repository).cycles_view(),
            forall|k: Seq<char>|
                k != SETTING_CURRENT_CYCLE_ID@ ==> #[trigger] setting_lookup(final(repository).settings_view(), k)
                    == setting_lookup(old(repository).settings_view(), k),
    {
        let local_date = at_utc.in_zone(&environment.timezone).date;
        let year = local_date.year();
        let month = local_date.month();
        if !Self::is_initialized(repository) {
            return Ok(
                (
                    SalaryConfigurationDto {
                        is_initialized: false,
                        timezone: environment.timezone.name(),
                        current_year: year,
                        current_month: month,
                        current_cycle: None,
                        next_cycle_salary_exact: None,
                    },
                    None,
                ),
            );
        }
        let context = match Self::ensure_current_cycle(repository, environment, at_utc) {
            Ok(c) => c,
            Err(e) => {
                return Err(e);
            },
        };
        proof {
            reveal_strlit("salary_current_cycle_id");
            reveal_strlit("next_cycle_salary_exact");
            assert(SETTING_NEXT_CYCLE_SALARY@ != SETTING_CURRENT_CYCLE_ID@) by {
                assert(SETTING_NEXT_CYCLE_SALARY@[0] != SETTING_CURRENT_CYCLE_ID@[0]);
            }
        }
        let next_salary = match repository.setting(SETTING_NEXT_CYCLE_SALARY) {
            Some(v) => v,
            None => {
                return Err(ApplicationError::IncompleteSalaryConfiguration(SETTING_NEXT_CYCLE_SALARY));
            },
        };
        let current = SalaryCycleDto::from_cycle(context.cycle_id.as_str(), &context.cycle);
        let dto = SalaryConfigurationDto {
            is_initialized: true,
            timezone: environment.timezone.name(),
            current_year: year,
            current_month: month,
            current_cycle: Some(current),
            next_cycle_salary_exact: Some(next_salary),
        };
        Ok((dto, Some(context)))
    }

    /// Initializes the salary with its first value: refuses a salary that is not a positive
    /// decimal; with a salary already initialized, confirms the same salary and refuses
    /// another; otherwise replaces an unconfigured zero cycle of the month, refuses a month
    /// frozen with another salary, and freezes the month's cycle with this salary.
    pub fn initialize_salary(
        repository: &mut LedgerStore,
        environment: &ApplicationEnvironment,
        monthly_salary_exact: &str,
        at_utc: Instant,
    ) -> (res: Result<(SalaryConfigurationDto, ApplicationContext), ApplicationError>)
        ensures
            salary_initialized(*old(repository), *final(repository), *environment, monthly_salary_exact@, at_utc, res),
    {
        let salary = match parse_positive_salary(monthly_salary_exact) {
            Ok(s) => s,
            Err(e) => {
                return Err(e);
            },
        };
        if Self::is_initialized(repository) {
            let (configuration, context) = match Self::get_salary_configuration(repository, environment, at_utc) {
                Ok(p) => p,
                Err(e) => {
                    return Err(e);
                },
            };
            let context = match context {
                Some(c) => c,
                None => {
                    return Err(ApplicationError::SalaryNotInitialized);
                },
            };
            if context.cycle.monthly_salary.num_eq(&salary) {
                proof {
                    reveal_strlit("salary_initialized");
                    reveal_strlit("salary_current_cycle_id");
                    assert(SETTING_SALARY_INITIALIZED@ != SETTING_CURRENT_CYCLE_ID@) by {
                        assert(SETTING_SALARY_INITIALIZED@[7] != SETTING_CURRENT_CYCLE_ID@[7]);
                    }
                }
                return Ok((configuration, context));
            }
            return Err(ApplicationError::SalaryAlreadyInitialized);
        }
        let local_date = at_utc.in_zone(&environment.timezone).date;
        let year = local_date.year();
        let month = local_date.month();
        let id = cycle_id(year, month);
        match repository.payroll_cycle(id.as_str()) {
            Some(existing) => {
                if existing.monthly_salary.is_zero() {
                    repository.remove_unconfigured_zero_cycle(id.as_str());
                    proof {
                        lemma_cycles_kept_lookup(old(repository).cycles_view(), id@);
                    }
                } else if !existing.monthly_salary.num_eq(&salary) {
                    return Err(ApplicationError::SalaryAlreadyInitialized);
                }
            },
            None => {},
        }
        proof {
            lemma_year_month_not_blank(year, month);
        }
        let cycle = match PayrollCycle::for_month(year, month, salary, environment.timezone.clone(), &environment.calendar) {
            Ok(c) => c,
            Err(e) => {
                return Err(ApplicationError::Payroll(e));
            },
        };
        match repository.ensure_payroll_cycle(id.as_str(), &cycle, at_utc) {
            Ok(_) => {},
            Err(e) => {
                return Err(ApplicationError::Persistence(e));
            },
        }
        match Self::persist_configuration(repository, environment, id.as_str(), salary, at_utc) {
            Ok(()) => {},
            Err(e) => {
                return Err(e);
            },
        }
        let current = SalaryCycleDto::from_cycle(id.as_str(), &cycle);
        let context = ApplicationContext::new(id, cycle, environment.calendar.clone());
        let dto = SalaryConfigurationDto {
            is_initialized: true,
            timezone: environment.timezone.name(),
            current_year: year,
            current_month: month,
            current_cycle: Some(current),
            next_cycle_salary_exact: Some(salary.to_text()),
        };
        Ok((dto, context))
    }

    /// Sets the salary of the next cycles; refused before the salary is initialized and for
    /// a salary that is not a positive decimal.
    pub fn update_next_cycle_salary(
        repository: &mut LedgerStore,
        environment: &ApplicationEnvironment,
        monthly_salary_exact: &str,
        at_utc: Instant,
    ) -> (res: Result<SalaryConfigurationDto, ApplicationError>)
        ensures
            !initialized_in(*old(repository)) ==> res is Err && res->Err_0 is SalaryNotInitialized
                && final(repository).unchanged_from(*old(repository)),
            initialized_in(*old(repository)) && positive_salary_of(monthly_salary_exact@) is None ==> res is Err
                && res->Err_0 is InvalidSalary && final(repository).unchanged_from(*old(repository)),
            res is Ok ==> setting_lookup(final(repository).settings_view(), SETTING_NEXT_CYCLE_SALARY@) == Some(
                spec_decimal_text(positive_salary_of(monthly_salary_exact@).unwrap()),
            ),
            res is Ok ==> res->Ok_0.is_initialized && res->Ok_0.next_cycle_salary_exact is Some
                && res->Ok_0.next_cycle_salary_exact->0@ == spec_decimal_text(
                positive_salary_of(monthly_salary_exact@).unwrap(),
            ),
            initialized_in(*old(repository)) && positive_salary_of(monthly_salary_exact@) is Some && (cycle_lookup(
                old(repository).cycles_view(),
                current_cycle_id(*environment, at_utc),
            ) matches Some(r) && r.calendar_version@ == environment.calendar.version_view()) ==> res is Ok,
            initialized_in(*old(repository)) && positive_salary_of(monthly_salary_exact@) is Some && cycle_lookup(
                old(repository).cycles_view(),
                current_cycle_id(*environment, at_utc),
            ) is None ==> (res is Ok <==> salary_text_makes_cycle(
                spec_decimal_text(positive_salary_of(monthly_salary_exact@)->0),
                *environment,
                at_utc,
            )),
            cycle_lookup(old(repository).cycles_view(), current_cycle_id(*environment, at_utc)) is Some
                ==> final(repository).cycles_view() == old(repository).cycles_view(),
            res is Ok ==> res->Ok_0.current_cycle is Some,
    {
        if !Self::is_initialized(repository) {
            return Err(ApplicationError::SalaryNotInitialized);
        }
        let salary = match parse_positive_salary(monthly_salary_exact) {
            Ok(s) => s,
            Err(e) => {
                return Err(e);
            },
        };
        proof {
            reveal_strlit("next_cycle_salary_exact");
            assert(is_word_char(SETTING_NEXT_CYCLE_SALARY@[0]));
        }
        let text = salary.to_text();
        let r = repository.set_setting(SETTING_NEXT_CYCLE_SALARY, text.as_str(), at_utc);
        proof {
            reveal_strlit("salary_current_cycle_id");
            assert(SETTING_NEXT_CYCLE_SALARY@ != SETTING_CURRENT_CYCLE_ID@) by {
                assert(SETTING_NEXT_CYCLE_SALARY@[0] != SETTING_CURRENT_CYCLE_ID@[0]);
            }
            reveal_strlit("salary_initialized");
            assert(SETTING_NEXT_CYCLE_SALARY@ != SETTING_SALARY_INITIALIZED@) by {
                assert(SETTING_NEXT_CYCLE_SALARY@[0] != SETTING_SALARY_INITIALIZED@[0]);
            }
            assert(initialized_in(*repository));
        }
        match Self::get_salary_configuration(repository, environment, at_utc) {
            Ok(pair) => Ok(pair.0),
            Err(e) => Err(e),
        }
    }
}


/// The code of the weekday with an index (Monday is 0).
pub open spec fn weekday_code_of_index(i: int) -> Seq<char> {
    if i == 0 {
        "MONDAY"@
    } else if i == 1 {
        "TUESDAY"@
    } else if i == 2 {
        "WEDNESDAY"@
    } else if i == 3 {
        "THURSDAY"@
    } else if i == 4 {
        "FRIDAY"@
    } else if i == 5 {
        "SATURDAY"@
    } else {
        "SUNDAY"@
    }
}

/// `d` shows the day `day` of the environment's calendar.
pub open spec fn shows_day(d: CalendarDayDto, day: int, environment: ApplicationEnvironment) -> bool {
    &&& d.date@ == spec_date_text(day)
    &&& d.weekday@ == weekday_code_of_index(spec_weekday_index(day))
    &&& d.is_workday == environment.calendar.spec_is_workday(day)
    &&& d.is_weekend == (spec_weekday_index(day) >= 5)
    &&& d.is_holiday == environment.calendar.spec_is_holiday(day)
    &&& (d.holiday_name is Some) == (environment.calendar.spec_is_holiday(day)
        && environment.holiday_name_spec(day) is Some)
    &&& (d.holiday_name is Some) ==> environment.holiday_name_spec(day) == Some(d.holiday_name->0@)
}

/// `dto` shows the month `year`-`month`, whose days run from `first` to before `next`,
/// with the cycle from `start` to `end` of `count` workdays.
pub open spec fn shows_month(
    dto: CalendarMonthDto,
    year: i32,
    month: u32,
    environment: ApplicationEnvironment,
    first: int,
    next: int,
    start: int,
    end: int,
    count: int,
) -> bool {
    &&& dto.year == year
    &&& dto.month == month
    &&& dto.timezone@ == environment.timezone@
    &&& dto.cycle_id@ == year_month_text(year, month)
    &&& dto.cycle_start@ == spec_date_text(start)
    &&& dto.cycle_end@ == spec_date_text(end)
    &&& dto.workday_count == count
    &&& dto.payday@ == spec_date_text(end)
    &&& dto.days@.len() == if first < next {
        next - first
    } else {
        0
    }
    &&& forall|i: int| 0 <= i < dto.days@.len() ==> shows_day(#[trigger] dto.days@[i], first + i, environment)
}

/// What `get_calendar_month` answers: the month's days, and its payroll cycle, the frozen one
/// when the month has one, otherwise the cycle with a zero salary.
pub open spec fn calendar_month_outcome(
    res: Result<CalendarMonthDto, ApplicationError>,
    repository: LedgerStore,
    environment: ApplicationEnvironment,
    year: i32,
    month: u32,
) -> bool {
    let first = spec_date_from_ymd(year as int, month as int, 1);
    let next = next_month_start_spec(year, month);
    if first is None || next is None {
        res == Err::<CalendarMonthDto, ApplicationError>(ApplicationError::InvalidCalendarMonth { year, month })
    } else {
        match cycle_lookup(repository.cycles_view(), year_month_text(year, month)) {
            Some(r) => if r.calendar_version@ != environment.calendar.version_view() {
                match res {
                    Err(ApplicationError::CalendarVersionMismatch(x)) => x@ == r.cycle_id@,
                    _ => false,
                }
            } else {
                res matches Ok(dto) && shows_month(
                    dto, year, month, environment, first->0, next->0, r.start_date@, r.end_date@,
                    r.workday_count as int,
                )
            },
            None => match for_month_spec(environment.calendar, year, month, (0int, 0nat)) {
                Err(e) => res == Err::<CalendarMonthDto, ApplicationError>(ApplicationError::Payroll(e)),
                Ok(t) => res matches Ok(dto) && shows_month(
                    dto, year, month, environment, first->0, next->0, t.1, t.2, t.3,
                ),
            },
        }
    }
}

impl SalaryConfigurationService {
    /// The calendar of a month: each day with its weekday, whether it is a workday, a
    /// weekend day or a holiday (and the holiday's name), and the month's payroll cycle.
    pub fn get_calendar_month(
        repository: &LedgerStore,
        environment: &ApplicationEnvironment,
        year: i32,
        month: u32,
    ) -> (res: Result<CalendarMonthDto, ApplicationError>)
        ensures
            calendar_month_outcome(res, *repository, *environment, year, month),
    {
        let month_start = match Date::from_ymd(year, month, 1) {
            Some(d) => d,
            None => {
                return Err(ApplicationError::InvalidCalendarMonth { year, month });
            },
        };
        let next_month = if month == 12 {
            if year == i32::MAX {
                None
            } else {
                Date::from_ymd(year + 1, 1, 1)
            }
        } else {
            Date::from_ymd(year, month + 1, 1)
        };
        let next_month = match next_month {
            Some(d) => d,
            None => {
                return Err(ApplicationError::InvalidCalendarMonth { year, month });
            },
        };
        let id = cycle_id(year, month);
        let (start, end, count) = match repository.payroll_cycle(id.as_str()) {
            Some(record) => match Self::context_from_record(environment, record) {
                Ok(c) => (c.cycle.start_date, c.cycle.end_date, c.cycle.workday_count),
                Err(e) => {
                    return Err(e);
                },
            },
            None => match PayrollCycle::for_month(
                year,
                month,
                Money::zero(),
                environment.timezone.clone(),
                &environment.calendar,
            ) {
                Ok(c) => (c.start_date, c.end_date, c.workday_count),
                Err(e) => {
                    return Err(ApplicationError::Payroll(e));
                },
            },
        };
        let mut days: Vec<CalendarDayDto> = Vec::new();
        let mut date = month_start;
        proof {
            use_type_invariant(&next_month);
        }
        while date.is_before(&next_month)
            invariant
                month_start@ <= date@,
                date@ <= next_month@ || date@ == month_start@,
                next_month@ <= MAX_DAY,
                days@.len() == date@ - month_start@,
                forall|i: int|
                    0 <= i < days@.len() ==> shows_day(#[trigger] days@[i], month_start@ + i, *environment),
            decreases next_month@ - date@,
        {
            let weekday = date.weekday();
            let is_holiday = environment.calendar.is_holiday(date);
            let holiday_name = if is_holiday {
                environment.holiday_name(date)
            } else {
                None
            };
            let is_weekend = match weekday {
                Weekday::Saturday => true,
                Weekday::Sunday => true,
                _ => false,
            };
            let day = CalendarDayDto {
                date: date.to_text(),
                weekday: weekday_code(weekday).to_string(),
                is_workday: environment.calendar.is_workday(date),
                is_weekend,
                is_holiday,
                holiday_name,
            };
            proof {
                lemma_weekday_code_index(weekday);
            }
            days.push(day);
            date = match date.succ() {
                Some(d) => d,
                None => {
                    return Err(ApplicationError::InvalidCalendarMonth { year, month });
                },
            };
        }
        Ok(
            CalendarMonthDto {
                year,
                month,
                timezone: environment.timezone.name(),
                cycle_id: id,
                cycle_start: start.to_text(),
                cycle_end: end.to_text(),
                workday_count: count,
                payday: end.to_text(),
                days,
            },
        )
    }
}

/// The code of a weekday is the code of its index.
pub proof fn lemma_weekday_code_index(w: Weekday)
    ensures
        weekday_code_spec(w) == weekday_code_of_index(w.index()),
{
}

} // verus!
