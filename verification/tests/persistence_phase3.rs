use std::str::FromStr;

use rust_decimal::Decimal;
use salary_garden_core::domain::payroll::{PayrollCycle, WorkCalendar};
use salary_garden_core::domain::rewards::{RewardCounts, RewardValues};
use salary_garden_core::money::Money;
use salary_garden_core::persistence::{
    CollectionLedgerEntry, LedgerStore, OfflineRewardBag, PersistenceError,
};
use salary_garden_core::services::{DailyEntitlement, RewardLedgerService};
use salary_garden_core::time::{Date, Instant, TimeOfDay, TimeZone};

fn date(year: i32, month: u32, day: u32) -> Date {
    Date::from_ymd(year, month, day).unwrap()
}

fn at(year: i32, month: u32, day: u32, hour: u32) -> Instant {
    Instant::from_utc(date(year, month, day), TimeOfDay::from_hms(hour, 0, 0).unwrap()).unwrap()
}

fn plus(instant: Instant, seconds: i64) -> Instant {
    instant.plus_seconds(seconds).unwrap()
}

fn value(m: Money) -> Decimal {
    Decimal::from_i128_with_scale(m.mantissa(), m.scale())
}

fn calendar() -> WorkCalendar {
    WorkCalendar::new("cn-2024-persistence-test-v1", &[date(2024, 1, 1)])
}

fn cycle(month: u32) -> PayrollCycle {
    PayrollCycle::for_month(
        2024,
        month,
        Money::new(22000, 0),
        TimeZone::shanghai(),
        &calendar(),
    )
    .unwrap()
}

/// The ledger as a fresh process finds it: every stored row read back into a new ledger.
fn reopen(store: &LedgerStore) -> LedgerStore {
    let mut fresh = LedgerStore::new();
    for row in store.cycle_rows() {
        fresh.restore_cycle(row.clone()).unwrap();
    }
    for (key, value, updated_at) in store.setting_rows() {
        fresh.restore_setting(key, value, *updated_at);
    }
    for row in store.daily_rows() {
        fresh.restore_daily(row.clone()).unwrap();
    }
    for bag in store.bag_rows() {
        fresh.restore_bag(bag.clone()).unwrap();
    }
    for item in store.bag_item_rows() {
        fresh.restore_bag_item(item.clone());
    }
    for entry in store.ledger_rows() {
        fresh.restore_ledger_entry(entry.clone()).unwrap();
    }
    for event in store.event_rows() {
        fresh.restore_event(event.clone()).unwrap();
    }
    fresh
}

fn reconcile(
    repository: &mut LedgerStore,
    cycle_id: &str,
    payroll_cycle: &PayrollCycle,
    work_date: Date,
    work_seconds: u64,
    reconciled_at: Instant,
) -> Option<OfflineRewardBag> {
    RewardLedgerService::reconcile_offline(
        repository,
        cycle_id,
        payroll_cycle,
        plus(reconciled_at, -3600),
        reconciled_at,
        &[DailyEntitlement {
            work_date,
            effective_work_seconds: work_seconds,
        }],
        reconciled_at,
    )
    .unwrap()
}

fn same_bag(a: &OfflineRewardBag, b: &OfflineRewardBag) -> bool {
    a.bag_id == b.bag_id
        && a.cycle_id == b.cycle_id
        && a.period_start == b.period_start
        && a.period_end == b.period_end
        && a.counts == b.counts
        && value(a.exact_value) == value(b.exact_value)
        && a.created_at == b.created_at
        && a.claimed == b.claimed
        && a.claimed_at == b.claimed_at
}

fn same_entry(a: &CollectionLedgerEntry, b: &CollectionLedgerEntry) -> bool {
    a.transaction_id == b.transaction_id
        && a.cycle_id == b.cycle_id
        && a.source_type == b.source_type
        && a.source_id == b.source_id
        && a.counts == b.counts
        && value(a.exact_value) == value(b.exact_value)
        && a.created_at == b.created_at
}

#[test]
fn first_startup_migrations_cycle_snapshot_and_settings_are_idempotent() {
    let mut repository = LedgerStore::new();
    let payroll_cycle = cycle(1);
    let now = at(2024, 1, 2, 9);

    let first = repository
        .ensure_payroll_cycle("cycle-2024-01", &payroll_cycle, now)
        .unwrap();
    let second = repository
        .ensure_payroll_cycle("cycle-2024-01", &payroll_cycle, plus(now, 1))
        .unwrap();
    repository
        .set_setting("launch_on_startup", "false", now)
        .unwrap();
    repository
        .set_setting("launch_on_startup", "true", plus(now, 1))
        .unwrap();

    assert_eq!(repository.payroll_cycle_count(), 1);
    assert_eq!(first.cycle_id, second.cycle_id);
    assert_eq!(first.start_date, second.start_date);
    assert_eq!(first.end_date, second.end_date);
    assert_eq!(value(first.monthly_salary), value(second.monthly_salary));
    assert_eq!(first.created_at, second.created_at);
    assert_eq!(
        repository.setting("launch_on_startup").as_deref(),
        Some("true")
    );
    assert_eq!(repository.offline_reward_bag_count(), 0);
    assert_eq!(repository.collection_ledger_count(), 0);
}

#[test]
fn offline_gap_creates_one_bag_and_accounts_it_atomically() {
    let mut repository = LedgerStore::new();
    let payroll_cycle = cycle(1);
    let work_date = date(2024, 1, 2);
    let bag = reconcile(
        &mut repository,
        "cycle-2024-01",
        &payroll_cycle,
        work_date,
        3_600,
        at(2024, 1, 2, 10),
    )
    .unwrap();
    let expected = RewardCounts {
        silver: 300,
        gold: 59,
        diamond: 1,
    };

    assert_eq!(bag.counts, expected);
    assert_eq!(
        value(bag.exact_value),
        value(
            RewardValues::for_cycle(&payroll_cycle)
                .total_value(expected)
                .unwrap()
        )
    );
    assert!(!bag.claimed);
    let state = repository
        .daily_reward_state("cycle-2024-01", work_date)
        .unwrap();
    assert_eq!(state.entitled, expected);
    assert_eq!(state.accounted, expected);
    assert_eq!(
        state.collected,
        RewardCounts {
            silver: 0,
            gold: 0,
            diamond: 0
        }
    );
}

#[test]
fn ten_restarts_do_not_create_duplicate_offline_bags() {
    let payroll_cycle = cycle(1);
    let work_date = date(2024, 1, 2);
    let mut stored = LedgerStore::new();

    for launch in 0..10 {
        let mut repository = reopen(&stored);
        let bag = reconcile(
            &mut repository,
            "cycle-2024-01",
            &payroll_cycle,
            work_date,
            3_600,
            plus(at(2024, 1, 2, 10), launch),
        );
        assert_eq!(bag.is_some(), launch == 0);
        stored = repository;
    }

    let repository = reopen(&stored);
    assert_eq!(repository.offline_reward_bag_count(), 1);
}

#[test]
fn claiming_bag_increases_only_the_collected_wallet() {
    let mut repository = LedgerStore::new();
    let payroll_cycle = cycle(1);
    let work_date = date(2024, 1, 2);
    let bag = reconcile(
        &mut repository,
        "cycle-2024-01",
        &payroll_cycle,
        work_date,
        3_600,
        at(2024, 1, 2, 10),
    )
    .unwrap();

    let entry =
        RewardLedgerService::claim_offline_bag(&mut repository, &bag.bag_id, at(2024, 1, 2, 11))
            .unwrap();
    let wallet = repository.wallet_totals().unwrap();
    let state = repository
        .daily_reward_state("cycle-2024-01", work_date)
        .unwrap();

    assert_eq!(entry.counts, bag.counts);
    assert_eq!(value(entry.exact_value), value(bag.exact_value));
    assert_eq!(wallet.counts, bag.counts);
    assert_eq!(value(wallet.exact_value), value(bag.exact_value));
    assert_eq!(state.entitled, bag.counts);
    assert_eq!(state.accounted, bag.counts);
    assert_eq!(state.collected, bag.counts);
}

#[test]
fn same_bag_cannot_be_claimed_twice() {
    let mut repository = LedgerStore::new();
    let payroll_cycle = cycle(1);
    let bag = reconcile(
        &mut repository,
        "cycle-2024-01",
        &payroll_cycle,
        date(2024, 1, 2),
        60,
        at(2024, 1, 2, 9),
    )
    .unwrap();
    RewardLedgerService::claim_offline_bag(&mut repository, &bag.bag_id, at(2024, 1, 2, 10))
        .unwrap();

    let error =
        RewardLedgerService::claim_offline_bag(&mut repository, &bag.bag_id, at(2024, 1, 2, 11))
            .unwrap_err();
    assert!(matches!(error, PersistenceError::BagAlreadyClaimed(id) if id == bag.bag_id));
}

#[test]
fn double_claim_creates_only_one_collection_ledger_entry() {
    let mut repository = LedgerStore::new();
    let payroll_cycle = cycle(1);
    let bag = reconcile(
        &mut repository,
        "cycle-2024-01",
        &payroll_cycle,
        date(2024, 1, 2),
        3_600,
        at(2024, 1, 2, 10),
    )
    .unwrap();
    let first =
        RewardLedgerService::claim_offline_bag(&mut repository, &bag.bag_id, at(2024, 1, 2, 11))
            .unwrap();
    assert!(RewardLedgerService::claim_offline_bag(
        &mut repository,
        &bag.bag_id,
        at(2024, 1, 2, 11)
    )
    .is_err());

    assert_eq!(repository.collection_ledger_count(), 1);
    let ledger = repository.collection_ledger(None);
    assert_eq!(ledger.len(), 1);
    assert!(same_entry(&ledger[0], &first));
    assert_eq!(repository.wallet_totals().unwrap().counts, bag.counts);
}

#[test]
fn accounted_counts_never_exceed_the_high_water_entitlement() {
    let mut repository = LedgerStore::new();
    let payroll_cycle = cycle(1);
    let work_date = date(2024, 1, 2);

    let first = reconcile(
        &mut repository,
        "cycle-2024-01",
        &payroll_cycle,
        work_date,
        60,
        at(2024, 1, 2, 9),
    )
    .unwrap();
    let second = reconcile(
        &mut repository,
        "cycle-2024-01",
        &payroll_cycle,
        work_date,
        3_600,
        at(2024, 1, 2, 10),
    )
    .unwrap();
    assert_eq!(
        RewardCounts {
            silver: first.counts.silver + second.counts.silver,
            gold: first.counts.gold + second.counts.gold,
            diamond: first.counts.diamond + second.counts.diamond,
        },
        RewardCounts::from_work_seconds(3_600)
    );

    let state = repository
        .daily_reward_state("cycle-2024-01", work_date)
        .unwrap();
    assert_eq!(state.accounted, state.entitled);
    assert!(state.accounted.silver <= state.entitled.silver);
    assert!(state.accounted.gold <= state.entitled.gold);
    assert!(state.accounted.diamond <= state.entitled.diamond);

    let error = RewardLedgerService::reconcile_offline(
        &mut repository,
        "cycle-2024-01",
        &payroll_cycle,
        at(2024, 1, 2, 10),
        at(2024, 1, 2, 11),
        &[DailyEntitlement {
            work_date,
            effective_work_seconds: 25_201,
        }],
        at(2024, 1, 2, 11),
    )
    .unwrap_err();
    assert!(matches!(
        error,
        PersistenceError::EffectiveWorkSecondsOutOfRange {
            seconds: 25_201,
            ..
        }
    ));
    assert_eq!(repository.offline_reward_bag_count(), 2);
}

#[test]
fn payroll_cycles_keep_reward_state_and_wallet_entries_isolated() {
    let mut repository = LedgerStore::new();
    let january = cycle(1);
    let february = cycle(2);
    let january_bag = reconcile(
        &mut repository,
        "cycle-2024-01",
        &january,
        date(2024, 1, 2),
        60,
        at(2024, 1, 2, 9),
    )
    .unwrap();
    let february_bag = reconcile(
        &mut repository,
        "cycle-2024-02",
        &february,
        date(2024, 2, 1),
        3_600,
        at(2024, 2, 1, 10),
    )
    .unwrap();
    RewardLedgerService::claim_offline_bag(&mut repository, &january_bag.bag_id, at(2024, 2, 1, 11))
        .unwrap();

    assert_eq!(repository.payroll_cycle_count(), 2);
    let january_bags = repository.offline_reward_bags(Some("cycle-2024-01"));
    assert_eq!(january_bags.len(), 1);
    assert!(same_bag(
        &january_bags[0],
        &repository.offline_reward_bag(&january_bag.bag_id).unwrap()
    ));
    let february_bags = repository.offline_reward_bags(Some("cycle-2024-02"));
    assert_eq!(february_bags.len(), 1);
    assert!(same_bag(&february_bags[0], &february_bag));
    assert_eq!(
        repository.collection_ledger(Some("cycle-2024-01")).len(),
        1
    );
    assert!(repository
        .collection_ledger(Some("cycle-2024-02"))
        .is_empty());
}

#[test]
fn unclaimed_bag_from_previous_cycle_survives_cycle_change() {
    let mut repository = LedgerStore::new();
    let january_bag = reconcile(
        &mut repository,
        "cycle-2024-01",
        &cycle(1),
        date(2024, 1, 31),
        3_600,
        at(2024, 1, 31, 10),
    )
    .unwrap();
    let _february_bag = reconcile(
        &mut repository,
        "cycle-2024-02",
        &cycle(2),
        date(2024, 2, 1),
        60,
        at(2024, 2, 1, 9),
    )
    .unwrap();

    let persisted = repository.offline_reward_bag(&january_bag.bag_id).unwrap();
    assert!(!persisted.claimed);
    assert_eq!(repository.offline_reward_bags(None).len(), 2);

    RewardLedgerService::claim_offline_bag(&mut repository, &january_bag.bag_id, at(2024, 2, 2, 9))
        .unwrap();
    assert_eq!(
        repository.wallet_totals().unwrap().counts,
        january_bag.counts
    );
}

#[test]
fn clock_rollback_produces_no_negative_gap_and_preserves_history() {
    let mut repository = LedgerStore::new();
    let payroll_cycle = cycle(1);
    let work_date = date(2024, 1, 2);
    let claimed_bag = reconcile(
        &mut repository,
        "cycle-2024-01",
        &payroll_cycle,
        work_date,
        3_600,
        at(2024, 1, 2, 10),
    )
    .unwrap();
    RewardLedgerService::claim_offline_bag(&mut repository, &claimed_bag.bag_id, at(2024, 1, 2, 11))
        .unwrap();

    let rollback = reconcile(
        &mut repository,
        "cycle-2024-01",
        &payroll_cycle,
        work_date,
        60,
        at(2024, 1, 2, 9),
    );
    assert!(rollback.is_none());
    assert_eq!(repository.offline_reward_bag_count(), 1);
    assert_eq!(repository.collection_ledger_count(), 1);
    let state = repository
        .daily_reward_state("cycle-2024-01", work_date)
        .unwrap();
    assert_eq!(state.entitled, RewardCounts::from_work_seconds(3_600));
    assert_eq!(state.accounted, state.entitled);
    assert_eq!(state.collected, state.entitled);
}

#[test]
fn closing_and_reopening_database_restores_bags_wallet_state_and_settings() {
    let payroll_cycle = cycle(1);
    let work_date = date(2024, 1, 2);
    let bag;
    let stored;
    {
        let mut repository = LedgerStore::new();
        bag = reconcile(
            &mut repository,
            "cycle-2024-01",
            &payroll_cycle,
            work_date,
            3_600,
            at(2024, 1, 2, 10),
        )
        .unwrap();
        repository
            .set_setting("locale", "zh-CN", at(2024, 1, 2, 10))
            .unwrap();
        RewardLedgerService::claim_offline_bag(&mut repository, &bag.bag_id, at(2024, 1, 2, 11))
            .unwrap();
        stored = repository;
    }

    let repository = reopen(&stored);
    let restored_bag = repository.offline_reward_bag(&bag.bag_id).unwrap();
    let restored_state = repository
        .daily_reward_state("cycle-2024-01", work_date)
        .unwrap();
    assert!(restored_bag.claimed);
    assert_eq!(restored_bag.claimed_at, Some(at(2024, 1, 2, 11)));
    assert_eq!(restored_state.collected, bag.counts);
    assert_eq!(repository.wallet_totals().unwrap().counts, bag.counts);
    assert_eq!(repository.setting("locale").as_deref(), Some("zh-CN"));
    assert_eq!(repository.collection_ledger_count(), 1);
}

#[test]
fn immutable_payroll_cycle_snapshot_rejects_conflicting_reuse_of_cycle_id() {
    let mut repository = LedgerStore::new();
    let now = at(2024, 1, 2, 9);
    repository
        .ensure_payroll_cycle("cycle-2024", &cycle(1), now)
        .unwrap();

    let error = repository
        .ensure_payroll_cycle("cycle-2024", &cycle(2), now)
        .unwrap_err();
    assert!(matches!(
        error,
        PersistenceError::CycleSnapshotConflict(id) if id == "cycle-2024"
    ));
    assert_eq!(repository.payroll_cycle_count(), 1);
}
