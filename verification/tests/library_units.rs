use rust_decimal::Decimal;
use salary_garden_core::application::{
    parse_positive_salary, ApplicationContext, ApplicationError, ApplicationService, SalaryConfigurationService,
};
use salary_garden_core::domain::payroll::{calculate_payroll_snapshot, PayrollCycle, PayrollError, WorkCalendar};
use salary_garden_core::domain::rewards::{RewardCounts, RewardValues};
use salary_garden_core::money::Money;
use salary_garden_core::persistence::{LedgerStore, LiveRewardStatus, PersistenceError};
use salary_garden_core::services::{DailyEntitlement, RewardLedgerService};
use salary_garden_core::text::{i32_text, padded_year_month, u128_text, u64_text};
use salary_garden_core::time::{Date, Instant, TimeOfDay, TimeZone, Weekday};

fn date(year: i32, month: u32, day: u32) -> Date {
    Date::from_ymd(year, month, day).unwrap()
}

fn at(day: u32, hour: u32, minute: u32) -> Instant {
    TimeZone::shanghai()
        .instant_of_local(
            date(2024, 1, day),
            TimeOfDay::from_hms(hour, minute, 0).unwrap(),
        )
        .unwrap()
}

fn calendar() -> WorkCalendar {
    WorkCalendar::new("unit-calendar", &[date(2024, 1, 1)])
}

fn cycle() -> PayrollCycle {
    PayrollCycle::for_month(
        2024,
        1,
        Money::new(22000, 0),
        TimeZone::shanghai(),
        &calendar(),
    )
    .unwrap()
}

#[test]
fn money_text_matches_decimal_display() {
    let cases: [(i128, u32); 9] = [
        (0, 0),
        (0, 2),
        (5, 2),
        (-5, 2),
        (22000, 0),
        (2200000, 2),
        (-123456789, 4),
        (79_228_162_514_264_337_593_543_950_335, 28),
        (-79_228_162_514_264_337_593_543_950_335, 0),
    ];
    for (mantissa, scale) in cases {
        let money = Money::from_parts(mantissa, scale).unwrap();
        assert_eq!(
            money.to_text(),
            Decimal::from_i128_with_scale(mantissa, scale).to_string()
        );
    }
    assert_eq!(Money::from_parts(5, 2).unwrap().to_text(), "0.05");
    assert!(Money::from_parts(1, 29).is_none());
    assert!(Money::from_parts(79_228_162_514_264_337_593_543_950_336, 0).is_none());
}

#[test]
fn number_texts_match_display() {
    assert_eq!(u64_text(0), "0");
    assert_eq!(u64_text(u64::MAX), u64::MAX.to_string());
    assert_eq!(u128_text(1_000_000_007), "1000000007");
    assert_eq!(i32_text(i32::MIN), i32::MIN.to_string());
    assert_eq!(i32_text(-7), "-7");
    assert_eq!(padded_year_month(2024, 1), "2024-01");
    assert_eq!(padded_year_month(-5, 12), "-005-12");
    assert_eq!(padded_year_month(12345, 3), "12345-03");
}

#[test]
fn dates_and_zones_follow_the_calendar() {
    assert_eq!(date(2024, 1, 1).weekday(), Weekday::Monday);
    assert_eq!(date(2024, 1, 6).weekday(), Weekday::Saturday);
    assert_eq!(date(1, 1, 1).weekday(), Weekday::Monday);
    assert!(Date::from_ymd(2023, 2, 29).is_none());
    assert!(Date::from_ymd(2024, 13, 1).is_none());
    assert_eq!(date(2024, 2, 28).succ().unwrap().to_text(), "2024-02-29");
    assert_eq!(date(2024, 3, 1).pred().unwrap().to_text(), "2024-02-29");
    assert!(TimeZone::named("Not/AZone").is_none());
    assert_eq!(TimeZone::named("Asia/Shanghai").unwrap().name(), "Asia/Shanghai");
    let instant = at(2, 9, 40);
    assert_eq!(instant.to_rfc3339(), "2024-01-02T01:40:00+00:00");
    assert_eq!(
        instant.in_zone(&TimeZone::shanghai()).to_rfc3339(),
        "2024-01-02T09:40:00+08:00"
    );
}

#[test]
fn workday_search_skips_weekends_and_holidays() {
    let calendar = calendar();
    assert_eq!(calendar.first_workday_after(date(2023, 12, 29)).unwrap(), date(2024, 1, 2));
    assert_eq!(calendar.last_workday_before(date(2024, 1, 2)).unwrap(), date(2023, 12, 29));
    assert_eq!(
        calendar.workdays_inclusive(date(2024, 1, 6), date(2024, 1, 7)).unwrap(),
        0
    );
}

#[test]
fn every_error_has_its_message() {
    assert_eq!(
        PayrollError::InvalidMonth(13).message(),
        "month must be in 1..=12, got 13"
    );
    assert_eq!(
        PayrollError::NoWorkdays { year: 2024, month: 2 }.message(),
        "the payroll month 2024-02 has no workdays"
    );
    assert_eq!(
        PersistenceError::BagAlreadyClaimed("b".to_string()).message(),
        "offline reward bag `b` has already been claimed"
    );
    assert_eq!(
        PersistenceError::EffectiveWorkSecondsOutOfRange {
            work_date: "2024-01-02".to_string(),
            seconds: 25_201
        }
        .message(),
        "effective work seconds for 2024-01-02 exceed the daily maximum: 25201"
    );
    assert_eq!(
        ApplicationError::InvalidCalendarMonth { year: -3, month: 0 }.message(),
        "invalid calendar month -3-0"
    );
    assert_eq!(
        ApplicationError::Persistence(PersistenceError::EmptyCycleId).message(),
        "payroll cycle id must not be empty"
    );
}

#[test]
fn blank_ids_and_setting_keys_are_refused() {
    let mut store = LedgerStore::new();
    assert_eq!(
        store.ensure_payroll_cycle("  ", &cycle(), at(2, 9, 0)).unwrap_err(),
        PersistenceError::EmptyCycleId
    );
    assert_eq!(
        store.set_setting(" \t", "x", at(2, 9, 0)).unwrap_err(),
        PersistenceError::EmptySettingKey
    );
    assert_eq!(store.payroll_cycle_count(), 0);
}

#[test]
fn reconciliation_refuses_a_reversed_period_and_a_repeated_date() {
    let mut store = LedgerStore::new();
    let entitlement = DailyEntitlement {
        work_date: date(2024, 1, 2),
        effective_work_seconds: 60,
    };
    assert_eq!(
        RewardLedgerService::reconcile_offline(
            &mut store,
            "c",
            &cycle(),
            at(2, 10, 0),
            at(2, 9, 0),
            &[entitlement],
            at(2, 10, 0),
        )
        .unwrap_err(),
        PersistenceError::InvalidPeriod
    );
    assert!(matches!(
        RewardLedgerService::reconcile_offline(
            &mut store,
            "c",
            &cycle(),
            at(2, 9, 0),
            at(2, 10, 0),
            &[entitlement, entitlement],
            at(2, 10, 0),
        ),
        Err(PersistenceError::DuplicateEntitlementDate(d)) if d == "2024-01-02"
    ));
    assert_eq!(store.payroll_cycle_count(), 0);
    assert_eq!(store.offline_reward_bag_count(), 0);
}

#[test]
fn claiming_a_missing_bag_is_refused() {
    let mut store = LedgerStore::new();
    assert!(matches!(
        RewardLedgerService::claim_offline_bag(&mut store, "nope", at(2, 9, 0)),
        Err(PersistenceError::BagNotFound(id)) if id == "nope"
    ));
}

#[test]
fn only_settlements_change_the_wallet() {
    let mut store = LedgerStore::new();
    let payroll_cycle = cycle();
    RewardLedgerService::materialize_live_rewards(
        &mut store,
        "c",
        &payroll_cycle,
        date(2024, 1, 2),
        600,
        at(2, 8, 50),
    )
    .unwrap();
    RewardLedgerService::package_pending_live_rewards(&mut store, at(2, 8, 51)).unwrap();
    RewardLedgerService::reconcile_offline(
        &mut store,
        "c",
        &payroll_cycle,
        at(2, 8, 40),
        at(2, 8, 51),
        &[DailyEntitlement {
            work_date: date(2024, 1, 2),
            effective_work_seconds: 660,
        }],
        at(2, 8, 51),
    )
    .unwrap();
    assert_eq!(store.collection_ledger_count(), 0);
    assert_eq!(
        store.wallet_totals().unwrap().counts,
        RewardCounts {
            silver: 0,
            gold: 0,
            diamond: 0
        }
    );
    let bag = store.offline_reward_bags(None).remove(0);
    RewardLedgerService::claim_offline_bag(&mut store, &bag.bag_id, at(2, 9, 0)).unwrap();
    assert_eq!(store.collection_ledger_count(), 1);
    assert_eq!(store.wallet_totals().unwrap().counts, bag.counts);
    assert_eq!(store.live_reward_event_count(Some(LiveRewardStatus::Pending)), 0);
}

#[test]
fn reconciling_again_pays_nothing_twice() {
    let mut store = LedgerStore::new();
    let payroll_cycle = cycle();
    let entitlements = [DailyEntitlement {
        work_date: date(2024, 1, 2),
        effective_work_seconds: 3600,
    }];
    let first = RewardLedgerService::reconcile_offline(
        &mut store,
        "c",
        &payroll_cycle,
        at(2, 8, 40),
        at(2, 9, 40),
        &entitlements,
        at(2, 9, 40),
    )
    .unwrap();
    assert!(first.is_some());
    let second = RewardLedgerService::reconcile_offline(
        &mut store,
        "c",
        &payroll_cycle,
        at(2, 8, 40),
        at(2, 9, 50),
        &entitlements,
        at(2, 9, 50),
    )
    .unwrap();
    assert!(second.is_none());
    assert_eq!(store.offline_reward_bag_count(), 1);
}

#[test]
fn application_reconciles_from_the_cycle_start_through_today() {
    let mut store = LedgerStore::new();
    let context = ApplicationContext::new("2024-01".to_string(), cycle(), calendar());
    // On the third workday at 09:40 two full days and one hour are owed.
    let bag = ApplicationService::reconcile_offline(&mut store, &context, at(4, 9, 40))
        .unwrap()
        .unwrap();
    assert_eq!(bag.counts.silver, 2 * 2100 + 300);
    assert_eq!(bag.counts.gold, 2 * 413 + 59);
    assert_eq!(bag.counts.diamond, 2 * 7 + 1);
    assert!(ApplicationService::reconcile_offline(&mut store, &context, at(4, 9, 40))
        .unwrap()
        .is_none());
}

#[test]
fn calendar_month_of_a_month_without_frozen_cycle_uses_a_zero_salary_cycle() {
    let store = LedgerStore::new();
    let environment =
        salary_garden_core::application::ApplicationEnvironment::default_environment();
    let month = SalaryConfigurationService::get_calendar_month(&store, &environment, 2024, 12)
        .unwrap();
    assert_eq!(month.days.len(), 31);
    assert_eq!(month.cycle_id, "2024-12");
    assert_eq!(month.cycle_end, "2024-12-31");
    assert_eq!(month.days[24].weekday, "WEDNESDAY");
    assert!(month.days[24].is_workday);
    assert!(month.days[24].holiday_name.is_none());
    assert!(matches!(
        SalaryConfigurationService::get_calendar_month(&store, &environment, 2024, 0),
        Err(ApplicationError::InvalidCalendarMonth { year: 2024, month: 0 })
    ));
}

#[test]
fn packaged_bags_come_in_cycle_id_order() {
    let mut store = LedgerStore::new();
    let payroll_cycle = cycle();
    for id in ["cycle-b", "cycle-a", "cycle-c"] {
        RewardLedgerService::materialize_live_rewards(
            &mut store,
            id,
            &payroll_cycle,
            date(2024, 1, 2),
            20,
            at(2, 8, 41),
        )
        .unwrap();
    }
    let bags = RewardLedgerService::package_pending_live_rewards(&mut store, at(2, 8, 42)).unwrap();
    let ids: Vec<&str> = bags.iter().map(|bag| bag.cycle_id.as_str()).collect();
    assert_eq!(ids, vec!["cycle-a", "cycle-b", "cycle-c"]);
    assert!(RewardLedgerService::package_pending_live_rewards(&mut store, at(2, 8, 43))
        .unwrap()
        .is_empty());
    assert_eq!(store.offline_reward_bag_count(), 3);
}

#[test]
fn salary_text_is_read_without_surrounding_whitespace() {
    let salary = parse_positive_salary("  22000.50\t").unwrap();
    assert_eq!(salary.to_text(), "22000.50");
    assert!(matches!(
        parse_positive_salary(" 0.00 "),
        Err(ApplicationError::InvalidSalary)
    ));
    assert!(matches!(
        parse_positive_salary("12,5"),
        Err(ApplicationError::InvalidSalary)
    ));
}

#[test]
fn date_text_matches_chrono_for_every_kind_of_year() {
    for (year, month, day) in [(-5, 1, 1), (0, 2, 29), (999, 12, 31), (9999, 12, 31), (10000, 1, 1), (262_000, 6, 15)] {
        let expected = chrono::NaiveDate::from_ymd_opt(year, month, day).unwrap().to_string();
        assert_eq!(date(year, month, day).to_text(), expected);
    }
}

#[test]
fn a_drawn_bag_id_names_the_new_bag_and_a_taken_one_is_refused() {
    let mut store = LedgerStore::new();
    let payroll_cycle = cycle();
    let values = RewardValues::for_cycle(&payroll_cycle);
    let first = vec![(date(2024, 1, 2), RewardCounts { silver: 300, gold: 59, diamond: 1 })];
    let bag = store
        .reconcile_offline_with_id("c", at(2, 8, 40), at(2, 9, 40), &first, values.clone(), "bag-1".to_string(), at(2, 9, 40))
        .unwrap()
        .unwrap();
    assert_eq!(bag.bag_id, "bag-1");
    let more = vec![(date(2024, 1, 2), RewardCounts { silver: 600, gold: 119, diamond: 2 })];
    assert!(matches!(
        store.reconcile_offline_with_id("c", at(2, 8, 40), at(2, 10, 40), &more, values.clone(), "bag-1".to_string(), at(2, 10, 40)),
        Err(PersistenceError::DuplicateId(id)) if id == "bag-1"
    ));
    assert_eq!(store.offline_reward_bag_count(), 1);
    let second = store
        .reconcile_offline_with_id("c", at(2, 8, 40), at(2, 10, 40), &more, values, "bag-2".to_string(), at(2, 10, 40))
        .unwrap()
        .unwrap();
    assert_eq!(second.bag_id, "bag-2");
    assert_eq!(second.counts, RewardCounts { silver: 300, gold: 60, diamond: 1 });
}

#[test]
fn a_drawn_transaction_id_names_the_ledger_entry_and_a_taken_one_is_refused() {
    let mut store = LedgerStore::new();
    let payroll_cycle = cycle();
    let values = RewardValues::for_cycle(&payroll_cycle);
    let day = vec![(date(2024, 1, 2), RewardCounts { silver: 300, gold: 59, diamond: 1 })];
    store
        .reconcile_offline_with_id("c", at(2, 8, 40), at(2, 9, 40), &day, values.clone(), "bag-1".to_string(), at(2, 9, 40))
        .unwrap();
    let next = vec![(date(2024, 1, 3), RewardCounts { silver: 300, gold: 59, diamond: 1 })];
    store
        .reconcile_offline_with_id("c", at(3, 8, 40), at(3, 9, 40), &next, values, "bag-2".to_string(), at(3, 9, 40))
        .unwrap();
    let entry = store.claim_offline_bag_with_id("bag-1", "t-1".to_string(), at(3, 9, 50)).unwrap();
    assert_eq!(entry.transaction_id, "t-1");
    assert_eq!(entry.source_id, "bag-1");
    assert!(matches!(
        store.claim_offline_bag_with_id("bag-2", "t-1".to_string(), at(3, 9, 51)),
        Err(PersistenceError::DuplicateId(id)) if id == "t-1"
    ));
    assert_eq!(store.collection_ledger_count(), 1);
    RewardLedgerService::materialize_live_rewards(&mut store, "c", &cycle(), date(2024, 1, 4), 20, at(4, 8, 41))
        .unwrap();
    let event = store.pending_live_rewards("c").remove(0);
    assert!(matches!(
        store.collect_live_reward_with_id(&event.event_id, "t-1".to_string(), at(4, 8, 42)),
        Err(PersistenceError::DuplicateId(id)) if id == "t-1"
    ));
    let collected = store.collect_live_reward_with_id(&event.event_id, "t-2".to_string(), at(4, 8, 42)).unwrap();
    assert_eq!(collected.transaction_id, "t-2");
    assert_eq!(store.collection_ledger_count(), 2);
}

#[test]
fn packaging_uses_the_drawn_ids_and_refuses_a_repeated_one() {
    let mut store = LedgerStore::new();
    let payroll_cycle = cycle();
    for id in ["cycle-b", "cycle-a"] {
        RewardLedgerService::materialize_live_rewards(&mut store, id, &payroll_cycle, date(2024, 1, 2), 20, at(2, 8, 41))
            .unwrap();
    }
    let repeated = vec!["x".to_string(), "x".to_string()];
    assert!(matches!(
        store.package_pending_live_rewards_with_ids(&repeated, at(2, 8, 42)),
        Err(PersistenceError::DuplicateId(id)) if id == "x"
    ));
    assert_eq!(store.offline_reward_bag_count(), 0);
    assert_eq!(store.live_reward_event_count(Some(LiveRewardStatus::Pending)), 4);
    let ids = vec!["x".to_string(), "y".to_string()];
    let bags = store.package_pending_live_rewards_with_ids(&ids, at(2, 8, 42)).unwrap();
    assert_eq!(bags[0].bag_id, "x");
    assert_eq!(bags[0].cycle_id, "cycle-a");
    assert_eq!(bags[1].bag_id, "y");
    assert_eq!(bags[1].cycle_id, "cycle-b");
    assert_eq!(store.live_reward_event_count(Some(LiveRewardStatus::Pending)), 0);
}

#[test]
fn a_zero_salary_divides_to_a_plain_zero() {
    let zero = PayrollCycle::for_month(2024, 1, Money::new(0, 2), TimeZone::shanghai(), &calendar()).unwrap();
    let rates = zero.pay_rates();
    assert_eq!(rates.daily.to_text(), "0");
    assert_eq!(rates.hourly.to_text(), "0");
}

#[test]
fn a_calendar_version_mismatch_is_refused_whatever_the_salary() {
    let huge = PayrollCycle::for_month(
        2024,
        1,
        Money::from_parts(79_000_000_000_000_000_000_000_000_000, 0).unwrap(),
        TimeZone::shanghai(),
        &calendar(),
    )
    .unwrap();
    let other = WorkCalendar::new("other-calendar", &[date(2024, 1, 1)]);
    assert!(matches!(
        calculate_payroll_snapshot(&huge, &other, at(2, 9, 40)),
        Err(PayrollError::CalendarVersionMismatch { .. })
    ));
}

#[test]
fn a_snapshot_past_the_decimal_range_is_refused_rather_than_panicking() {
    let huge = PayrollCycle::for_month(
        2024,
        1,
        Money::from_parts(79_000_000_000_000_000_000_000_000_000, 0).unwrap(),
        TimeZone::shanghai(),
        &calendar(),
    )
    .unwrap();
    let context = ApplicationContext::new("2024-01".to_string(), huge, calendar());
    let mut store = LedgerStore::new();
    assert!(matches!(
        ApplicationService::get_app_snapshot(&mut store, &context, at(2, 9, 40)),
        Err(ApplicationError::AmountOutOfRange)
    ));
    assert_eq!(store.payroll_cycle_count(), 1);
}

#[test]
fn utc_text_writes_date_time_fraction_and_offset() {
    assert_eq!(at(2, 9, 40).to_rfc3339(), "2024-01-02T01:40:00+00:00");
    assert_eq!(at(31, 23, 59).to_rfc3339(), "2024-01-31T15:59:00+00:00");
}
