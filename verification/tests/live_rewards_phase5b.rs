use rust_decimal::Decimal;
use salary_garden_core::application::ApplicationContext;
use salary_garden_core::commands::{
    collect_live_reward_at, list_offline_reward_bags_from_state,
    list_pending_live_rewards_from_state, sync_live_rewards_at, AppState,
};
use salary_garden_core::domain::payroll::{PayrollCycle, WorkCalendar};
use salary_garden_core::domain::rewards::{RewardCounts, RewardType, RewardValues};
use salary_garden_core::money::Money;
use salary_garden_core::persistence::{LedgerStore, LiveRewardEvent, LiveRewardStatus, PersistenceError};
use salary_garden_core::services::{DailyEntitlement, RewardLedgerService, MAX_PENDING_LIVE_REWARDS};
use salary_garden_core::time::{Date, Instant, TimeOfDay, TimeZone};

fn date(year: i32, month: u32, day: u32) -> Date {
    Date::from_ymd(year, month, day).unwrap()
}

fn at(hour: u32, minute: u32, second: u32) -> Instant {
    TimeZone::shanghai()
        .instant_of_local(
            date(2024, 1, 2),
            TimeOfDay::from_hms(hour, minute, second).unwrap(),
        )
        .unwrap()
}

fn plus(instant: Instant, seconds: i64) -> Instant {
    instant.plus_seconds(seconds).unwrap()
}

fn value(m: Money) -> Decimal {
    Decimal::from_i128_with_scale(m.mantissa(), m.scale())
}

fn calendar() -> WorkCalendar {
    WorkCalendar::new("phase-5b-calendar", &[date(2024, 1, 1)])
}

fn cycle(month: u32) -> PayrollCycle {
    PayrollCycle::for_month(
        2024,
        month,
        Money::new(22000, 0),
        TimeZone::shanghai(),
        &calendar(),
    )
    .unwrap()
}

fn materialize(
    repository: &mut LedgerStore,
    cycle_id: &str,
    payroll_cycle: &PayrollCycle,
    work_seconds: u64,
    now: Instant,
) -> Vec<LiveRewardEvent> {
    RewardLedgerService::materialize_live_rewards(
        repository,
        cycle_id,
        payroll_cycle,
        date(2024, 1, 2),
        work_seconds,
        now,
    )
    .unwrap()
}

/// The ledger as a fresh process finds it: every stored row read back into a new ledger.
fn reopen(store: &LedgerStore) -> LedgerStore {
    let mut fresh = LedgerStore::new();
    for row in store.cycle_rows() {
        fresh.restore_cycle(row.clone()).unwrap();
    }
    for (key, value, updated_at) in store.setting_rows() {
        fresh.restore_setting(key, value, *updated_at);
    }
    for row in store.daily_rows() {
        fresh.restore_daily(row.clone()).unwrap();
    }
    for bag in store.bag_rows() {
        fresh.restore_bag(bag.clone()).unwrap();
    }
    for item in store.bag_item_rows() {
        fresh.restore_bag_item(item.clone());
    }
    for entry in store.ledger_rows() {
        fresh.restore_ledger_entry(entry.clone()).unwrap();
    }
    for event in store.event_rows() {
        fresh.restore_event(event.clone()).unwrap();
    }
    fresh
}

fn context() -> ApplicationContext {
    ApplicationContext::new("cycle-1".to_string(), cycle(1), calendar())
}

#[test]
fn ten_second_boundary_materializes_silver() {
    let mut repository = LedgerStore::new();
    let events = materialize(&mut repository, "cycle-1", &cycle(1), 10, at(8, 40, 10));
    assert_eq!(events.len(), 1);
    assert_eq!(events[0].event_index, 1);
    assert_eq!(events[0].reward_type, RewardType::Silver);
}

#[test]
fn sixty_second_boundary_materializes_gold_not_silver() {
    let mut repository = LedgerStore::new();
    let events = materialize(&mut repository, "cycle-1", &cycle(1), 60, at(8, 41, 0));
    assert_eq!(events.len(), 6);
    assert_eq!(events[5].event_index, 6);
    assert_eq!(events[5].reward_type, RewardType::Gold);
    assert_eq!(
        events
            .iter()
            .filter(|event| event.reward_type == RewardType::Silver)
            .count(),
        5
    );
}

#[test]
fn full_hour_boundary_materializes_diamond() {
    let mut repository = LedgerStore::new();
    let payroll_cycle = cycle(1);
    let mut diamond = None;
    for batch in 0..30 {
        let events = materialize(
            &mut repository,
            "cycle-1",
            &payroll_cycle,
            3_600,
            plus(at(9, 40, 0), batch),
        );
        for event in events {
            if event.event_index == 360 {
                diamond = Some(event.clone());
            }
            RewardLedgerService::collect_live_reward(
                &mut repository,
                &event.event_id,
                plus(at(9, 41, 0), batch),
            )
            .unwrap();
        }
    }
    assert_eq!(diamond.unwrap().reward_type, RewardType::Diamond);
}

#[test]
fn deterministic_key_prevents_duplicate_materialization() {
    let mut repository = LedgerStore::new();
    let payroll_cycle = cycle(1);
    let first = materialize(&mut repository, "cycle-1", &payroll_cycle, 10, at(8, 40, 10));
    let second = materialize(&mut repository, "cycle-1", &payroll_cycle, 10, at(8, 40, 11));
    assert_eq!(first[0].event_id, second[0].event_id);
    assert_eq!(repository.live_reward_event_count(None), 1);
}

#[test]
fn materialization_increments_accounted_exactly_once() {
    let mut repository = LedgerStore::new();
    let payroll_cycle = cycle(1);
    materialize(&mut repository, "cycle-1", &payroll_cycle, 60, at(8, 41, 0));
    materialize(&mut repository, "cycle-1", &payroll_cycle, 60, at(8, 41, 1));
    let state = repository
        .daily_reward_state("cycle-1", date(2024, 1, 2))
        .unwrap();
    assert_eq!(state.accounted, RewardCounts::from_work_seconds(60));
}

#[test]
fn collecting_pending_reward_credits_wallet_once() {
    let mut repository = LedgerStore::new();
    let payroll_cycle = cycle(1);
    let event = materialize(&mut repository, "cycle-1", &payroll_cycle, 10, at(8, 40, 10))[0].clone();
    let entry =
        RewardLedgerService::collect_live_reward(&mut repository, &event.event_id, at(8, 40, 11))
            .unwrap();
    assert_eq!(entry.counts.silver, 1);
    assert_eq!(
        value(entry.exact_value),
        value(RewardValues::for_cycle(&payroll_cycle).silver)
    );
    assert_eq!(
        value(repository.cycle_wallet_totals("cycle-1").unwrap().exact_value),
        value(entry.exact_value)
    );
}

#[test]
fn double_collect_is_rejected_without_second_ledger_entry() {
    let mut repository = LedgerStore::new();
    let event = materialize(&mut repository, "cycle-1", &cycle(1), 10, at(8, 40, 10))[0].clone();
    RewardLedgerService::collect_live_reward(&mut repository, &event.event_id, at(8, 40, 11))
        .unwrap();
    let error =
        RewardLedgerService::collect_live_reward(&mut repository, &event.event_id, at(8, 40, 12))
            .unwrap_err();
    assert!(matches!(
        error,
        PersistenceError::LiveRewardAlreadySettled { .. }
    ));
    assert_eq!(repository.collection_ledger_count(), 1);
}

#[test]
fn missing_or_packaged_event_never_credits_wallet() {
    let mut repository = LedgerStore::new();
    let missing = RewardLedgerService::collect_live_reward(&mut repository, "missing", at(8, 40, 10))
        .unwrap_err();
    assert!(matches!(missing, PersistenceError::LiveRewardNotFound(_)));

    let event = materialize(&mut repository, "cycle-1", &cycle(1), 10, at(8, 40, 10))[0].clone();
    RewardLedgerService::package_pending_live_rewards(&mut repository, at(8, 40, 11)).unwrap();
    let packaged =
        RewardLedgerService::collect_live_reward(&mut repository, &event.event_id, at(8, 40, 12))
            .unwrap_err();
    assert!(matches!(
        packaged,
        PersistenceError::LiveRewardAlreadySettled { .. }
    ));
    assert_eq!(repository.collection_ledger_count(), 0);
    assert_eq!(
        repository.wallet_totals().unwrap().counts,
        RewardCounts {
            silver: 0,
            gold: 0,
            diamond: 0
        }
    );
}

#[test]
fn pending_reward_survives_repository_reopen() {
    let mut repository = LedgerStore::new();
    let event_id = materialize(&mut repository, "cycle-1", &cycle(1), 10, at(8, 40, 10))[0]
        .event_id
        .clone();
    let repository = reopen(&repository);
    assert_eq!(
        repository.pending_live_rewards("cycle-1")[0].event_id,
        event_id
    );
}

#[test]
fn stale_pending_is_packaged_without_incrementing_accounted_twice() {
    let mut repository = LedgerStore::new();
    let payroll_cycle = cycle(1);
    materialize(&mut repository, "cycle-1", &payroll_cycle, 60, at(8, 41, 0));
    let before = repository
        .daily_reward_state("cycle-1", date(2024, 1, 2))
        .unwrap()
        .accounted;
    let bags = RewardLedgerService::package_pending_live_rewards(&mut repository, at(8, 42, 0))
        .unwrap();
    let after = repository
        .daily_reward_state("cycle-1", date(2024, 1, 2))
        .unwrap()
        .accounted;
    assert_eq!(bags.len(), 1);
    assert_eq!(bags[0].counts, before);
    assert_eq!(after, before);
    assert_eq!(
        repository.live_reward_event_count(Some(LiveRewardStatus::Packaged)),
        6
    );
}

#[test]
fn repeated_stale_packaging_does_not_duplicate_bag() {
    let mut repository = LedgerStore::new();
    materialize(&mut repository, "cycle-1", &cycle(1), 10, at(8, 40, 10));
    assert_eq!(
        RewardLedgerService::package_pending_live_rewards(&mut repository, at(8, 41, 0))
            .unwrap()
            .len(),
        1
    );
    assert!(
        RewardLedgerService::package_pending_live_rewards(&mut repository, at(8, 42, 0))
            .unwrap()
            .is_empty()
    );
    assert_eq!(repository.offline_reward_bag_count(), 1);
}

#[test]
fn payroll_cycles_keep_live_events_isolated() {
    let mut repository = LedgerStore::new();
    materialize(&mut repository, "cycle-1", &cycle(1), 10, at(8, 40, 10));
    materialize(&mut repository, "cycle-2", &cycle(2), 10, at(8, 40, 10));
    assert_eq!(repository.pending_live_rewards("cycle-1").len(), 1);
    assert_eq!(repository.pending_live_rewards("cycle-2").len(), 1);
    assert_ne!(
        repository.pending_live_rewards("cycle-1")[0].event_id,
        repository.pending_live_rewards("cycle-2")[0].event_id
    );
}

#[test]
fn pending_screen_cap_preserves_unmaterialized_gap() {
    let mut repository = LedgerStore::new();
    let payroll_cycle = cycle(1);
    let events = materialize(&mut repository, "cycle-1", &payroll_cycle, 500, at(8, 48, 20));
    assert_eq!(events.len(), MAX_PENDING_LIVE_REWARDS as usize);
    let state = repository
        .daily_reward_state("cycle-1", date(2024, 1, 2))
        .unwrap();
    assert_eq!(state.entitled, RewardCounts::from_work_seconds(500));
    assert_eq!(state.accounted.total_events(), MAX_PENDING_LIVE_REWARDS);
    assert!(state.entitled.total_events() > state.accounted.total_events());
}

#[test]
fn collecting_one_capped_event_allows_next_gap_event_to_materialize() {
    let mut repository = LedgerStore::new();
    let payroll_cycle = cycle(1);
    let first = materialize(&mut repository, "cycle-1", &payroll_cycle, 500, at(8, 48, 20));
    RewardLedgerService::collect_live_reward(&mut repository, &first[0].event_id, at(8, 48, 21))
        .unwrap();
    let second = materialize(&mut repository, "cycle-1", &payroll_cycle, 500, at(8, 48, 22));
    assert_eq!(second.len(), MAX_PENDING_LIVE_REWARDS as usize);
    assert!(second.iter().any(|event| event.event_index == 13));
}

#[test]
fn unmaterialized_gap_is_recoverable_by_offline_reconciliation() {
    let mut repository = LedgerStore::new();
    let payroll_cycle = cycle(1);
    materialize(&mut repository, "cycle-1", &payroll_cycle, 500, at(8, 48, 20));
    RewardLedgerService::package_pending_live_rewards(&mut repository, at(8, 49, 0)).unwrap();
    let bag = RewardLedgerService::reconcile_offline(
        &mut repository,
        "cycle-1",
        &payroll_cycle,
        at(8, 40, 0),
        at(8, 49, 0),
        &[DailyEntitlement {
            work_date: date(2024, 1, 2),
            effective_work_seconds: 500,
        }],
        at(8, 49, 0),
    )
    .unwrap()
    .unwrap();
    assert_eq!(bag.counts.total_events(), 50 - MAX_PENDING_LIVE_REWARDS);
}

#[test]
fn dashboard_remount_lists_same_pending_identity() {
    let mut state = AppState::initialize(LedgerStore::new(), context(), at(8, 40, 0)).unwrap();
    let first = sync_live_rewards_at(&mut state, at(8, 40, 10)).unwrap();
    let second = list_pending_live_rewards_from_state(&state).unwrap();
    assert_eq!(first, second);
}

#[test]
fn collected_event_does_not_return_after_dashboard_remount() {
    let mut state = AppState::initialize(LedgerStore::new(), context(), at(8, 40, 0)).unwrap();
    let event = sync_live_rewards_at(&mut state, at(8, 40, 10))
        .unwrap()
        .remove(0);
    collect_live_reward_at(&mut state, &event.event_id, at(8, 40, 11)).unwrap();
    assert!(list_pending_live_rewards_from_state(&state)
        .unwrap()
        .is_empty());
}

#[test]
fn inactivity_packages_pending_then_reconciles_new_gap() {
    let mut state = AppState::initialize(LedgerStore::new(), context(), at(8, 40, 0)).unwrap();
    sync_live_rewards_at(&mut state, at(8, 40, 10)).unwrap();
    let pending = sync_live_rewards_at(&mut state, at(8, 41, 0)).unwrap();
    assert!(pending.is_empty());
    assert!(list_pending_live_rewards_from_state(&state)
        .unwrap()
        .is_empty());
}

#[test]
fn restart_packages_pending_once_without_duplicate_bag() {
    let stored = {
        let mut state = AppState::initialize(LedgerStore::new(), context(), at(8, 40, 0)).unwrap();
        assert_eq!(
            sync_live_rewards_at(&mut state, at(8, 40, 10)).unwrap().len(),
            1
        );
        state.repository
    };
    let stored = {
        let reopened = AppState::initialize(reopen(&stored), context(), at(8, 40, 11)).unwrap();
        assert_eq!(
            list_offline_reward_bags_from_state(&reopened)
                .unwrap()
                .len(),
            1
        );
        assert!(list_pending_live_rewards_from_state(&reopened)
            .unwrap()
            .is_empty());
        reopened.repository
    };
    let reopened_again = AppState::initialize(reopen(&stored), context(), at(8, 40, 12)).unwrap();
    assert_eq!(
        list_offline_reward_bags_from_state(&reopened_again)
            .unwrap()
            .len(),
        1
    );
}

#[test]
fn sequential_manual_and_magnet_collects_settle_once() {
    let mut repository = LedgerStore::new();
    let event_id = materialize(&mut repository, "cycle-1", &cycle(1), 10, at(8, 40, 10))[0]
        .event_id
        .clone();
    let results: Vec<_> = (0..2)
        .map(|offset| {
            RewardLedgerService::collect_live_reward(
                &mut repository,
                &event_id,
                plus(at(8, 40, 11), offset),
            )
        })
        .collect();
    assert_eq!(results.iter().filter(|result| result.is_ok()).count(), 1);
    let repository = reopen(&repository);
    assert_eq!(repository.collection_ledger_count(), 1);
    assert_eq!(
        repository.cycle_wallet_totals("cycle-1").unwrap().counts.silver,
        1
    );
}

#[test]
fn stale_session_clock_decides_between_packaging_and_materializing() {
    let mut state = AppState::initialize(LedgerStore::new(), context(), at(8, 40, 0)).unwrap();
    // Within fifteen seconds of the last sync the session stays live.
    assert_eq!(sync_live_rewards_at(&mut state, at(8, 40, 15)).unwrap().len(), 1);
    assert_eq!(state.last_live_sync_at, at(8, 40, 15));
    // Exactly fifteen seconds later is not yet stale.
    assert_eq!(sync_live_rewards_at(&mut state, at(8, 40, 30)).unwrap().len(), 3);
    // A sync that goes back in time does not move the clock back.
    sync_live_rewards_at(&mut state, at(8, 40, 29)).unwrap();
    assert_eq!(state.last_live_sync_at, at(8, 40, 30));
    // More than fifteen seconds later the session is over: everything pending is packaged.
    assert!(sync_live_rewards_at(&mut state, at(8, 40, 46)).unwrap().is_empty());
    assert_eq!(state.last_live_sync_at, at(8, 40, 46));
    assert_eq!(state.repository.live_reward_event_count(Some(LiveRewardStatus::Pending)), 0);
}

#[test]
fn commands_without_a_configured_salary_are_refused() {
    let environment = salary_garden_core::application::ApplicationEnvironment::default_environment();
    let mut state = AppState::open(LedgerStore::new(), environment, at(8, 40, 0)).unwrap();
    assert!(state.context.is_none());
    assert_eq!(
        sync_live_rewards_at(&mut state, at(8, 40, 10)).unwrap_err(),
        "salary has not been initialized"
    );
    assert_eq!(
        list_pending_live_rewards_from_state(&state).unwrap_err(),
        "salary has not been initialized"
    );
}
