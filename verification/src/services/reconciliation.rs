//! The reward ledger service: checks what it is handed, freezes the payroll cycle, and runs
//! the ledger's transactions.
use vstd::prelude::*;

use crate::domain::payroll::{PayrollCycle, WORK_SECONDS_PER_DAY};
use crate::domain::rewards::{counts_of_seconds, law_counts_only_change_on_boundaries, RewardCounts, RewardValues};
use crate::persistence::{
    claim_outcome, collect_outcome, ensure_outcome, full_day_counts, is_event_prefix, materialize_outcome,
    package_outcome, packaged_with_ids, reconcile_outcome, dates_distinct, lemma_counts_of_seconds_triple, CollectionLedgerEntry, LedgerStore, LiveRewardEvent,
    OfflineRewardBag, PersistenceError,
};
use crate::domain::rewards::law_counts_monotonic;
use crate::time::{instant_lt, spec_date_text, Date, Instant};

verus! {

/// The most pending live events a cycle may hold at once.
pub const MAX_PENDING_LIVE_REWARDS: u64 = 12;

/// Effective work seconds accrued on a work date.
#[derive(Clone, Copy, Debug)]
pub struct DailyEntitlement {
    pub work_date: Date,
    pub effective_work_seconds: u64,
}

/// An earlier entitlement names the same work date as entitlement `k`.
pub open spec fn duplicate_at(ents: Seq<DailyEntitlement>, k: int) -> bool {
    exists|j: int| 0 <= j < k && (#[trigger] ents[j]).work_date@ == ents[k].work_date@
}

/// Entitlement `k` repeats a work date or has more seconds than a full workday.
pub open spec fn invalid_at(ents: Seq<DailyEntitlement>, k: int) -> bool {
    duplicate_at(ents, k) || ents[k].effective_work_seconds > WORK_SECONDS_PER_DAY
}

/// Entitlement `k` is the first one that is refused.
pub open spec fn first_invalid(ents: Seq<DailyEntitlement>, k: int) -> bool {
    &&& 0 <= k < ents.len()
    &&& invalid_at(ents, k)
    &&& forall|m: int| 0 <= m < k ==> !#[trigger] invalid_at(ents, m)
}

/// The entitlement of each work date's effective seconds.
pub open spec fn entitlement_rows(ents: Seq<DailyEntitlement>) -> Seq<(Date, RewardCounts)> {
    ents.map_values(|e: DailyEntitlement| (e.work_date, counts_of_seconds(e.effective_work_seconds)))
}

/// The error refusing the first invalid entitlement `k`.
pub open spec fn refusal_of(ents: Seq<DailyEntitlement>, k: int, e: PersistenceError) -> bool {
    if duplicate_at(ents, k) {
        e matches PersistenceError::DuplicateEntitlementDate(d) && d@ == spec_date_text(ents[k].work_date@)
    } else {
        e matches PersistenceError::EffectiveWorkSecondsOutOfRange { work_date, seconds } && work_date@
            == spec_date_text(ents[k].work_date@) && seconds == ents[k].effective_work_seconds
    }
}

/// After freezing the cycle (`er` is what that returned, `mid` the ledger it left), either
/// the freezing was refused and its error is returned, or `after` holds of the rest.
pub open spec fn after_ensuring(
    old: LedgerStore,
    mid: LedgerStore,
    new: LedgerStore,
    cycle_id: Seq<char>,
    cycle: PayrollCycle,
    at: Instant,
    er: Result<crate::persistence::PayrollCycleRecord, PersistenceError>,
    refused: Option<PersistenceError>,
) -> bool {
    &&& ensure_outcome(old, mid, cycle_id, cycle, at, er)
    &&& match er {
        Err(e) => refused == Some(e) && new.unchanged_from(mid),
        Ok(_) => refused is None,
    }
}

/// What reconciling valid entitlements does: the cycle is frozen first (`mid` is the
/// ledger that leaves); if freezing is refused its error is returned, otherwise the gaps
/// between entitlement and accounted counts are packed into one bag with the cycle's values.
pub open spec fn offline_reconciled(
    old: LedgerStore,
    new: LedgerStore,
    cycle_id: Seq<char>,
    cycle: PayrollCycle,
    period_start: Instant,
    period_end: Instant,
    rows: Seq<(Date, RewardCounts)>,
    reconciled_at: Instant,
    res: Result<Option<OfflineRewardBag>, PersistenceError>,
) -> bool {
    exists|
        mid: LedgerStore,
        er: Result<crate::persistence::PayrollCycleRecord, PersistenceError>,
        refused: Option<PersistenceError>,
    |
        after_ensuring(old, mid, new, cycle_id, cycle, reconciled_at, er, refused) && match refused {
            Some(e) => res == Err::<Option<OfflineRewardBag>, _>(e),
            None => exists|v: RewardValues|
                v.derived_from(cycle) && reconcile_outcome(
                    mid,
                    new,
                    cycle_id,
                    period_start,
                    period_end,
                    rows,
                    v,
                    reconciled_at,
                    res,
                ),
        }
}

/// What materializing the live events of `effective_work_seconds` on a work date does:
/// more seconds than a full workday are refused, changing nothing; otherwise the cycle is
/// frozen first (`mid` is the ledger that leaves), and if that is not refused, the events
/// entitled and not yet accounted are materialized, at most `MAX_PENDING_LIVE_REWARDS`
/// pending at once, and the cycle's pending events returned.
pub open spec fn live_materialized(
    old: LedgerStore,
    new: LedgerStore,
    cycle_id: Seq<char>,
    cycle: PayrollCycle,
    work_date: Date,
    effective_work_seconds: u64,
    created_at: Instant,
    res: Result<Vec<LiveRewardEvent>, PersistenceError>,
) -> bool {
    if effective_work_seconds > WORK_SECONDS_PER_DAY {
        &&& res matches Err(PersistenceError::EffectiveWorkSecondsOutOfRange { work_date: d, seconds })
            && d@ == spec_date_text(work_date@) && seconds == effective_work_seconds
        &&& new.unchanged_from(old)
    } else {
        exists|
            mid: LedgerStore,
            er: Result<crate::persistence::PayrollCycleRecord, PersistenceError>,
            refused: Option<PersistenceError>,
        |
            after_ensuring(old, mid, new, cycle_id, cycle, created_at, er, refused) && match refused {
                Some(e) => res == Err::<Vec<LiveRewardEvent>, _>(e),
                None => exists|v: RewardValues|
                    v.derived_from(cycle) && materialize_outcome(
                        mid,
                        new,
                        cycle_id,
                        work_date,
                        counts_of_seconds(effective_work_seconds),
                        v,
                        MAX_PENDING_LIVE_REWARDS,
                        created_at,
                        res,
                    ),
            }
    }
}

impl RewardLedgerService {
    /// Reconciles the offline entitlements of a cycle over a period: refuses a period that
    /// ends before it starts, a repeated work date and more seconds than a full workday;
    /// freezes the cycle's payroll snapshot; and packs what is entitled and not yet
    /// accounted into one bag.
    pub fn reconcile_offline(
        repository: &mut LedgerStore,
        cycle_id: &str,
        cycle: &PayrollCycle,
        period_start: Instant,
        period_end: Instant,
        entitlements: &[DailyEntitlement],
        reconciled_at: Instant,
    ) -> (res: Result<Option<OfflineRewardBag>, PersistenceError>)
        requires
            cycle.workday_count > 0,
        ensures
            final(repository).events_view() == old(repository).events_view(),
            final(repository).settings_view() == old(repository).settings_view(),
            instant_lt(period_end@, period_start@) ==> res == Err::<Option<OfflineRewardBag>, _>(
                PersistenceError::InvalidPeriod,
            ) && final(repository).unchanged_from(*old(repository)),
            !instant_lt(period_end@, period_start@) ==> forall|k: int|
                #[trigger] first_invalid(entitlements@, k) ==> (res is Err && refusal_of(
                    entitlements@,
                    k,
                    res->Err_0,
                ) && final(repository).unchanged_from(*old(repository))),
            !instant_lt(period_end@, period_start@) && (forall|k: int|
                0 <= k < entitlements@.len() ==> !#[trigger] invalid_at(entitlements@, k)) ==> offline_reconciled(
                *old(repository),
                *final(repository),
                cycle_id@,
                *cycle,
                period_start,
                period_end,
                entitlement_rows(entitlements@),
                reconciled_at,
                res,
            ),
    {
        if period_end.is_before(&period_start) {
            return Err(PersistenceError::InvalidPeriod);
        }
        let mut rows: Vec<(Date, RewardCounts)> = Vec::new();
        let mut i: usize = 0;
        while i < entitlements.len()
            invariant
                !instant_lt(period_end@, period_start@),
                i <= entitlements@.len(),
                forall|m: int| 0 <= m < i ==> !#[trigger] invalid_at(entitlements@, m),
                rows@ == entitlement_rows(entitlements@.take(i as int)),
            decreases entitlements@.len() - i,
        {
            let e = entitlements[i];
            let mut j: usize = 0;
            while j < i
                invariant
                    !instant_lt(period_end@, period_start@),
                    forall|m: int| 0 <= m < i ==> !#[trigger] invalid_at(entitlements@, m),
                    j <= i,
                    i < entitlements@.len(),
                    e == entitlements@[i as int],
                    forall|m: int| 0 <= m < j ==> (#[trigger] entitlements@[m]).work_date@ != e.work_date@,
                decreases i - j,
            {
                if entitlements[j].work_date.same_day(&e.work_date) {
                    proof {
                        assert(duplicate_at(entitlements@, i as int));
                        assert(invalid_at(entitlements@, i as int));
                        assert forall|k: int| #[trigger] first_invalid(entitlements@, k) implies k == i by {
                            if k < i {
                            } else if k > i {
                                assert(!invalid_at(entitlements@, i as int));
                            }
                        }
                    }
                    return Err(PersistenceError::DuplicateEntitlementDate(e.work_date.to_text()));
                }
                j = j + 1;
            }
            if e.effective_work_seconds > WORK_SECONDS_PER_DAY as u64 {
                proof {
                    assert(invalid_at(entitlements@, i as int));
                    assert forall|k: int| #[trigger] first_invalid(entitlements@, k) implies k == i by {
                        if k < i {
                        } else if k > i {
                            assert(!invalid_at(entitlements@, i as int));
                        }
                    }
                }
                return Err(
                    PersistenceError::EffectiveWorkSecondsOutOfRange {
                        work_date: e.work_date.to_text(),
                        seconds: e.effective_work_seconds,
                    },
                );
            }
            let ghost before = rows@;
            rows.push((e.work_date, RewardCounts::from_work_seconds(e.effective_work_seconds)));
            proof {
                assert(entitlements@.take(i + 1) == entitlements@.take(i as int).push(e));
                assert(rows@ == entitlement_rows(entitlements@.take(i + 1)));
            }
            i = i + 1;
        }
        proof {
            assert(entitlements@.take(i as int) == entitlements@);
            assert forall|k: int| #[trigger] first_invalid(entitlements@, k) implies false by {}
            assert forall|a: int, b: int| 0 <= a < b < rows@.len() implies (#[trigger] rows@[a]).0@ != (
            #[trigger] rows@[b]).0@ by {
                assert(!invalid_at(entitlements@, b));
            }
            assert forall|k: int| 0 <= k < rows@.len() implies (#[trigger] rows@[k]).1.le(full_day_counts()) by {
                let secs = entitlements@[k].effective_work_seconds;
                assert(!invalid_at(entitlements@, k));
                law_counts_monotonic(secs as int, WORK_SECONDS_PER_DAY as int);
                lemma_counts_of_seconds_triple(secs);
                lemma_counts_of_seconds_triple(WORK_SECONDS_PER_DAY as u64);
            }
        }
        let ghost old_store = *repository;
        let ensured = repository.ensure_payroll_cycle(cycle_id, cycle, reconciled_at);
        let ghost mid = *repository;
        match ensured {
            Err(e) => {
                proof {
                    assert(after_ensuring(old_store, mid, *repository, cycle_id@, *cycle, reconciled_at, ensured, Some(e)));
                }
                Err(e)
            },
            Ok(record) => {
                let values = RewardValues::for_cycle(cycle);
                let res = repository.reconcile_offline_transaction(
                    cycle_id,
                    period_start,
                    period_end,
                    &rows,
                    values,
                    reconciled_at,
                );
                proof {
                    assert(after_ensuring(old_store, mid, *repository, cycle_id@, *cycle, reconciled_at, Ok(record), None));
                }
                res
            },
        }
    }

    /// Claims an offline bag into the wallet.
    pub fn claim_offline_bag(repository: &mut LedgerStore, bag_id: &str, claimed_at: Instant) -> (res: Result<
        CollectionLedgerEntry,
        PersistenceError,
    >)
        ensures
            claim_outcome(*old(repository), *final(repository), bag_id@, claimed_at, res),
    {
        repository.claim_offline_bag_transaction(bag_id, claimed_at)
    }

    /// Materializes the entitled live events of a cycle's work date: refuses more seconds
    /// than a full workday, freezes the cycle's payroll snapshot, and creates the events not
    /// yet accounted, up to the cap on pending events.
    pub fn materialize_live_rewards(
        repository: &mut LedgerStore,
        cycle_id: &str,
        cycle: &PayrollCycle,
        work_date: Date,
        effective_work_seconds: u64,
        created_at: Instant,
    ) -> (res: Result<Vec<LiveRewardEvent>, PersistenceError>)
        requires
            cycle.workday_count > 0,
        ensures
            live_materialized(
                *old(repository),
                *final(repository),
                cycle_id@,
                *cycle,
                work_date,
                effective_work_seconds,
                created_at,
                res,
            ),
    {
        if effective_work_seconds > WORK_SECONDS_PER_DAY as u64 {
            return Err(
                PersistenceError::EffectiveWorkSecondsOutOfRange {
                    work_date: work_date.to_text(),
                    seconds: effective_work_seconds,
                },
            );
        }
        let entitled = RewardCounts::from_work_seconds(effective_work_seconds);
        proof {
            law_counts_monotonic(effective_work_seconds as int, WORK_SECONDS_PER_DAY as int);
            lemma_counts_of_seconds_triple(effective_work_seconds);
            lemma_counts_of_seconds_triple(WORK_SECONDS_PER_DAY as u64);
            law_counts_only_change_on_boundaries(effective_work_seconds as int);
            lemma_counts_of_seconds_triple((10 * entitled.spec_total()) as u64);
        }
        let ghost old_store = *repository;
        let ensured = repository.ensure_payroll_cycle(cycle_id, cycle, created_at);
        let ghost mid = *repository;
        match ensured {
            Err(e) => {
                proof {
                    assert(after_ensuring(old_store, mid, *repository, cycle_id@, *cycle, created_at, ensured, Some(e)));
                }
                Err(e)
            },
            Ok(record) => {
                let values = RewardValues::for_cycle(cycle);
                let res = repository.materialize_live_rewards_transaction(
                    cycle_id,
                    work_date,
                    entitled,
                    values,
                    MAX_PENDING_LIVE_REWARDS,
                    created_at,
                );
                proof {
                    assert(after_ensuring(old_store, mid, *repository, cycle_id@, *cycle, created_at, Ok(record), None));
                }
                res
            },
        }
    }

    /// Collects a pending live event into the wallet.
    pub fn collect_live_reward(repository: &mut LedgerStore, event_id: &str, collected_at: Instant) -> (res: Result<
        CollectionLedgerEntry,
        PersistenceError,
    >)
        ensures
            collect_outcome(*old(repository), *final(repository), event_id@, collected_at, res),
    {
        repository.collect_live_reward_transaction(event_id, collected_at)
    }

    /// Packages every pending live event into offline bags, one per cycle.
    pub fn package_pending_live_rewards(repository: &mut LedgerStore, packaged_at: Instant) -> (res: Result<
        Vec<OfflineRewardBag>,
        PersistenceError,
    >)
        ensures
            package_outcome(*old(repository), *final(repository), packaged_at, res),
            exists|ids: Seq<Seq<char>>| #[trigger]
                packaged_with_ids(*old(repository), *final(repository), ids, packaged_at, res),
    {
        repository.package_pending_live_rewards_transaction(packaged_at)
    }
}

/// Reward-ledger operations, each run on the ledger it is handed.
pub struct RewardLedgerService;

} // verus!
