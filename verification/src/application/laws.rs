//! What holds of the application's operations across calls.
use vstd::prelude::*;

use super::service::{
    cycle_entitlements, entitled_seconds, entitlement_pairs, expected_entitlements, last_counted_day,
    offline_reconciled_at, work_start_instant,
};
use crate::domain::payroll::{spec_effective_seconds, WorkCalendar, WORK_SECONDS_PER_DAY};
use super::{ApplicationContext, ApplicationError, OfflineRewardBagDto};
use crate::domain::rewards::RewardValues;
use crate::domain::payroll::PayrollCycle;
use crate::domain::rewards::counts_of_seconds;
use crate::persistence::{
    daily_lookup, law_materialize_again_creates_nothing, law_reconcile_is_idempotent, materialize_outcome,
    reconcile_outcome, LiveRewardEvent, LedgerStore, OfflineRewardBag, PayrollCycleRecord, PersistenceError,
};
use crate::services::{
    entitlement_rows, live_materialized, offline_reconciled, after_ensuring, DailyEntitlement,
    MAX_PENDING_LIVE_REWARDS,
};
use crate::time::{instant_lt, lemma_date_view_injective, spec_local_parts, Date, Instant};

verus! {

/// Entitlements with the same dates and seconds give the same reconciliation rows.
proof fn lemma_rows_of_pairs(a: Seq<DailyEntitlement>, b: Seq<DailyEntitlement>)
    requires
        entitlement_pairs(a) == entitlement_pairs(b),
    ensures
        entitlement_rows(a) == entitlement_rows(b),
{
    assert(a.len() == entitlement_pairs(a).len());
    assert(b.len() == entitlement_pairs(b).len());
    assert forall|i: int| 0 <= i < a.len() implies entitlement_rows(a)[i] == entitlement_rows(b)[i] by {
        assert(entitlement_pairs(a)[i] == entitlement_pairs(b)[i]);
        lemma_date_view_injective(a[i].work_date, b[i].work_date);
    }
    assert(entitlement_rows(a) =~= entitlement_rows(b));
}

/// Reconciling the offline entitlements again at the same instant pays nothing twice:
/// after a reconciliation at `at_utc` succeeded, a second one at `at_utc` creates no bag,
/// answers `None` and leaves the bags, the wallet and the live events as they were.
pub proof fn law_offline_reconcile_pays_nothing_twice(
    s0: LedgerStore,
    s1: LedgerStore,
    s2: LedgerStore,
    context: ApplicationContext,
    at_utc: Instant,
    first: Option<OfflineRewardBagDto>,
    second: Result<Option<OfflineRewardBagDto>, ApplicationError>,
)
    requires
        offline_reconciled_at(s0, s1, context, at_utc, Ok(first)),
        offline_reconciled_at(s1, s2, context, at_utc, second),
    ensures
        second == Ok::<Option<OfflineRewardBagDto>, ApplicationError>(None),
        s2.bags_view() == s1.bags_view(),
        s2.ledger_view() == s1.ledger_view(),
        s2.events_view() == s1.events_view(),
{
    let today = spec_local_parts(at_utc@.0, at_utc@.1, context.cycle.timezone@).0;
    let secs = spec_local_parts(at_utc@.0, at_utc@.1, context.cycle.timezone@).1;
    let start = work_start_instant(context.cycle.timezone@, context.cycle.start_date@);
    let cid = context.cycle_id@;
    let cycle = context.cycle;
    let (e1, p1, r1) = choose|
        ents: Seq<DailyEntitlement>,
        period_start: Instant,
        r: Result<Option<OfflineRewardBag>, PersistenceError>,
    |
        {
            &&& entitlement_pairs(ents) == crate::application::service::cycle_entitlements(context, today, secs)
            &&& period_start@ == if instant_lt(at_utc@, start->0) {
                at_utc@
            } else {
                start->0
            }
            &&& offline_reconciled(s0, s1, cid, cycle, period_start, at_utc, entitlement_rows(ents), at_utc, r)
            &&& match r {
                Ok(Some(b)) => Ok::<Option<OfflineRewardBagDto>, ApplicationError>(first) is Ok && first is Some
                    && crate::application::service::shows_bag(first->0, b),
                Ok(None) => Ok::<Option<OfflineRewardBagDto>, ApplicationError>(first) == Ok::<
                    Option<OfflineRewardBagDto>,
                    ApplicationError,
                >(None),
                Err(e) => Ok::<Option<OfflineRewardBagDto>, ApplicationError>(first) == Err::<
                    Option<OfflineRewardBagDto>,
                    ApplicationError,
                >(ApplicationError::Persistence(e)),
            }
        };
    let (e2, p2, r2) = choose|
        ents: Seq<DailyEntitlement>,
        period_start: Instant,
        r: Result<Option<OfflineRewardBag>, PersistenceError>,
    |
        {
            &&& entitlement_pairs(ents) == crate::application::service::cycle_entitlements(context, today, secs)
            &&& period_start@ == if instant_lt(at_utc@, start->0) {
                at_utc@
            } else {
                start->0
            }
            &&& offline_reconciled(s1, s2, cid, cycle, period_start, at_utc, entitlement_rows(ents), at_utc, r)
            &&& match r {
                Ok(Some(b)) => second is Ok && second->Ok_0 is Some && crate::application::service::shows_bag(
                    second->Ok_0->0,
                    b,
                ),
                Ok(None) => second == Ok::<Option<OfflineRewardBagDto>, ApplicationError>(None),
                Err(e) => second == Err::<Option<OfflineRewardBagDto>, ApplicationError>(
                    ApplicationError::Persistence(e),
                ),
            }
        };
    lemma_rows_of_pairs(e1, e2);
    let rows = entitlement_rows(e1);
    assert(r1 is Ok);
    let (m1, er1, f1) = choose|
        mid: LedgerStore,
        er: Result<PayrollCycleRecord, PersistenceError>,
        refused: Option<PersistenceError>,
    |
        after_ensuring(s0, mid, s1, cid, cycle, at_utc, er, refused) && match refused {
            Some(e) => r1 == Err::<Option<OfflineRewardBag>, _>(e),
            None => exists|v: RewardValues|
                v.derived_from(cycle) && reconcile_outcome(mid, s1, cid, p1, at_utc, rows, v, at_utc, r1),
        };
    assert(f1 is None);
    let v1 = choose|v: RewardValues|
        v.derived_from(cycle) && reconcile_outcome(m1, s1, cid, p1, at_utc, rows, v, at_utc, r1);
    assert(s1.cycles_view() == m1.cycles_view());
    let (m2, er2, f2) = choose|
        mid: LedgerStore,
        er: Result<PayrollCycleRecord, PersistenceError>,
        refused: Option<PersistenceError>,
    |
        after_ensuring(s1, mid, s2, cid, cycle, at_utc, er, refused) && match refused {
            Some(e) => r2 == Err::<Option<OfflineRewardBag>, _>(e),
            None => exists|v: RewardValues|
                v.derived_from(cycle) && reconcile_outcome(mid, s2, cid, p2, at_utc, rows, v, at_utc, r2),
        };
    assert(er2 is Ok);
    assert(f2 is None);
    let v2 = choose|v: RewardValues|
        v.derived_from(cycle) && reconcile_outcome(m2, s2, cid, p2, at_utc, rows, v, at_utc, r2);
    assert(reconcile_outcome(s1, s2, cid, p2, at_utc, rows, v2, at_utc, r2));
    law_reconcile_is_idempotent(m1, s1, s2, cid, rows, p1, at_utc, v1, at_utc, r1->Ok_0, p2, at_utc, v2, at_utc, r2);
}

/// Reconciling the same entitlements of a cycle again pays nothing twice, at any later
/// time: after `RewardLedgerService::reconcile_offline` succeeded, a second call with the
/// same entitlements (whatever its period and time) freezes nothing new, creates no bag,
/// answers `None`, and leaves the bags, the wallet and the live events as they were.
pub proof fn law_reconcile_again_pays_nothing(
    s0: LedgerStore,
    s1: LedgerStore,
    s2: LedgerStore,
    cycle_id: Seq<char>,
    cycle: PayrollCycle,
    rows: Seq<(Date, crate::domain::rewards::RewardCounts)>,
    first_start: Instant,
    first_end: Instant,
    first_at: Instant,
    first: Option<OfflineRewardBag>,
    second_start: Instant,
    second_end: Instant,
    second_at: Instant,
    second: Result<Option<OfflineRewardBag>, PersistenceError>,
)
    requires
        offline_reconciled(s0, s1, cycle_id, cycle, first_start, first_end, rows, first_at, Ok(first)),
        offline_reconciled(s1, s2, cycle_id, cycle, second_start, second_end, rows, second_at, second),
    ensures
        second == Ok::<Option<OfflineRewardBag>, PersistenceError>(None),
        s2.bags_view() == s1.bags_view(),
        s2.ledger_view() == s1.ledger_view(),
        s2.events_view() == s1.events_view(),
{
    let r1 = Ok::<Option<OfflineRewardBag>, PersistenceError>(first);
    let (m1, er1, f1) = choose|
        mid: LedgerStore,
        er: Result<PayrollCycleRecord, PersistenceError>,
        refused: Option<PersistenceError>,
    |
        after_ensuring(s0, mid, s1, cycle_id, cycle, first_at, er, refused) && match refused {
            Some(e) => r1 == Err::<Option<OfflineRewardBag>, _>(e),
            None => exists|v: RewardValues|
                v.derived_from(cycle) && reconcile_outcome(mid, s1, cycle_id, first_start, first_end, rows, v, first_at, r1),
        };
    assert(f1 is None);
    let v1 = choose|v: RewardValues|
        v.derived_from(cycle) && reconcile_outcome(m1, s1, cycle_id, first_start, first_end, rows, v, first_at, r1);
    assert(s1.cycles_view() == m1.cycles_view());
    let (m2, er2, f2) = choose|
        mid: LedgerStore,
        er: Result<PayrollCycleRecord, PersistenceError>,
        refused: Option<PersistenceError>,
    |
        after_ensuring(s1, mid, s2, cycle_id, cycle, second_at, er, refused) && match refused {
            Some(e) => second == Err::<Option<OfflineRewardBag>, _>(e),
            None => exists|v: RewardValues|
                v.derived_from(cycle) && reconcile_outcome(
                    mid,
                    s2,
                    cycle_id,
                    second_start,
                    second_end,
                    rows,
                    v,
                    second_at,
                    second,
                ),
        };
    assert(er2 is Ok);
    assert(f2 is None);
    let v2 = choose|v: RewardValues|
        v.derived_from(cycle) && reconcile_outcome(m2, s2, cycle_id, second_start, second_end, rows, v, second_at, second);
    assert(reconcile_outcome(s1, s2, cycle_id, second_start, second_end, rows, v2, second_at, second));
    law_reconcile_is_idempotent(
        m1,
        s1,
        s2,
        cycle_id,
        rows,
        first_start,
        first_end,
        v1,
        first_at,
        first,
        second_start,
        second_end,
        v2,
        second_at,
        second,
    );
}

/// Materializing the same effective seconds of a work date again creates nothing: after
/// `RewardLedgerService::materialize_live_rewards` succeeded, a second call with the same
/// cycle, work date and seconds (at any time) answers the same pending events, creates no
/// event, and leaves the day's entitled, accounted and collected counts as they were, so
/// the day's events are accounted once.
pub proof fn law_materialize_same_seconds_again(
    s0: LedgerStore,
    s1: LedgerStore,
    s2: LedgerStore,
    cycle_id: Seq<char>,
    cycle: PayrollCycle,
    work_date: Date,
    seconds: u64,
    first_at: Instant,
    second_at: Instant,
    first: Vec<LiveRewardEvent>,
    second: Result<Vec<LiveRewardEvent>, PersistenceError>,
)
    requires
        live_materialized(s0, s1, cycle_id, cycle, work_date, seconds, first_at, Ok(first)),
        live_materialized(s1, s2, cycle_id, cycle, work_date, seconds, second_at, second),
    ensures
        second is Ok,
        second->Ok_0@ == first@,
        s2.events_view() == s1.events_view(),
        s2.bags_view() == s1.bags_view(),
        s2.ledger_view() == s1.ledger_view(),
        daily_lookup(s2.daily_view(), cycle_id, work_date@) is Some,
        daily_lookup(s2.daily_view(), cycle_id, work_date@)->0.accounted == daily_lookup(
            s1.daily_view(),
            cycle_id,
            work_date@,
        )->0.accounted,
        daily_lookup(s2.daily_view(), cycle_id, work_date@)->0.entitled == daily_lookup(
            s1.daily_view(),
            cycle_id,
            work_date@,
        )->0.entitled,
        daily_lookup(s2.daily_view(), cycle_id, work_date@)->0.collected == daily_lookup(
            s1.daily_view(),
            cycle_id,
            work_date@,
        )->0.collected,
{
    let r1 = Ok::<Vec<LiveRewardEvent>, PersistenceError>(first);
    let entitled = counts_of_seconds(seconds);
    assert(seconds <= 25200);
    let (m1, er1, f1) = choose|
        mid: LedgerStore,
        er: Result<PayrollCycleRecord, PersistenceError>,
        refused: Option<PersistenceError>,
    |
        after_ensuring(s0, mid, s1, cycle_id, cycle, first_at, er, refused) && match refused {
            Some(e) => r1 == Err::<Vec<LiveRewardEvent>, _>(e),
            None => exists|v: RewardValues|
                v.derived_from(cycle) && materialize_outcome(
                    mid,
                    s1,
                    cycle_id,
                    work_date,
                    counts_of_seconds(seconds),
                    v,
                    MAX_PENDING_LIVE_REWARDS,
                    first_at,
                    r1,
                ),
        };
    assert(f1 is None);
    let v1 = choose|v: RewardValues|
        v.derived_from(cycle) && materialize_outcome(
            m1,
            s1,
            cycle_id,
            work_date,
            counts_of_seconds(seconds),
            v,
            MAX_PENDING_LIVE_REWARDS,
            first_at,
            r1,
        );
    assert(s1.cycles_view() == m1.cycles_view());
    let (m2, er2, f2) = choose|
        mid: LedgerStore,
        er: Result<PayrollCycleRecord, PersistenceError>,
        refused: Option<PersistenceError>,
    |
        after_ensuring(s1, mid, s2, cycle_id, cycle, second_at, er, refused) && match refused {
            Some(e) => second == Err::<Vec<LiveRewardEvent>, _>(e),
            None => exists|v: RewardValues|
                v.derived_from(cycle) && materialize_outcome(
                    mid,
                    s2,
                    cycle_id,
                    work_date,
                    counts_of_seconds(seconds),
                    v,
                    MAX_PENDING_LIVE_REWARDS,
                    second_at,
                    second,
                ),
        };
    assert(er2 is Ok);
    assert(f2 is None);
    let v2 = choose|v: RewardValues|
        v.derived_from(cycle) && materialize_outcome(
            m2,
            s2,
            cycle_id,
            work_date,
            counts_of_seconds(seconds),
            v,
            MAX_PENDING_LIVE_REWARDS,
            second_at,
            second,
        );
    assert(materialize_outcome(
        s1,
        s2,
        cycle_id,
        work_date,
        entitled,
        v2,
        MAX_PENDING_LIVE_REWARDS,
        second_at,
        second,
    ));
    assert(entitled.spec_total() <= 2520);
    law_materialize_again_creates_nothing(
        m1,
        s1,
        s2,
        cycle_id,
        work_date,
        entitled,
        v1,
        v2,
        MAX_PENDING_LIVE_REWARDS,
        first_at,
        second_at,
        first,
        second,
    );
}

/// The entitlements from `start` through `hi`: workdays only, each once and in date order,
/// every workday of the range, each with its entitled seconds.
proof fn lemma_expected_entitlements(calendar: WorkCalendar, start: int, hi: int, today: int, secs: int)
    ensures
        ({
            let e = expected_entitlements(calendar, start, hi, today, secs);
            &&& forall|i: int|
                0 <= i < e.len() ==> calendar.spec_is_workday(#[trigger] e[i].0) && start <= e[i].0 <= hi
                    && e[i].1 == entitled_seconds(calendar, e[i].0, today, secs)
            &&& forall|i: int, j: int| 0 <= i < j < e.len() ==> #[trigger] e[i].0 < #[trigger] e[j].0
            &&& forall|d: int|
                start <= d <= hi && #[trigger] calendar.spec_is_workday(d) ==> exists|i: int|
                    0 <= i < e.len() && e[i].0 == d
        }),
    decreases hi - start + 1,
{
    if hi >= start {
        lemma_expected_entitlements(calendar, start, hi - 1, today, secs);
        let rest = expected_entitlements(calendar, start, hi - 1, today, secs);
        let e = expected_entitlements(calendar, start, hi, today, secs);
        if calendar.spec_is_workday(hi) {
            assert(e == rest.push((hi, entitled_seconds(calendar, hi, today, secs))));
            assert forall|d: int|
                start <= d <= hi && #[trigger] calendar.spec_is_workday(d) implies exists|i: int|
                    0 <= i < e.len() && e[i].0 == d by {
                if d == hi {
                    assert(e[rest.len() as int].0 == d);
                } else {
                    let i = choose|i: int| 0 <= i < rest.len() && rest[i].0 == d;
                    assert(e[i] == rest[i]);
                }
            }
            assert forall|i: int, j: int| 0 <= i < j < e.len() implies #[trigger] e[i].0 < #[trigger] e[j].0 by {
                if j < rest.len() {
                    assert(e[i] == rest[i] && e[j] == rest[j]);
                } else {
                    assert(e[i] == rest[i]);
                }
            }
        } else {
            assert forall|d: int|
                start <= d <= hi && #[trigger] calendar.spec_is_workday(d) implies exists|i: int|
                    0 <= i < e.len() && e[i].0 == d by {
                assert(d != hi);
            }
        }
    }
}

/// The offline entitlements of a cycle at local day `today` and second `secs` are the
/// cycle's workdays from its start through today (or its end), each once and in date
/// order, and every one of them: a workday before today is owed a full day of effective
/// seconds, today its effective seconds of work so far. Weekends and holidays are never
/// owed anything.
pub proof fn law_offline_entitlements_are_the_cycles_workdays(
    context: ApplicationContext,
    today: int,
    secs: int,
)
    ensures
        ({
            let e = cycle_entitlements(context, today, secs);
            let calendar = context.calendar;
            &&& forall|i: int|
                0 <= i < e.len() ==> {
                    &&& calendar.spec_is_workday(#[trigger] e[i].0)
                    &&& context.cycle.start_date@ <= e[i].0 <= context.cycle.end_date@
                    &&& e[i].0 <= today
                    &&& e[i].0 < today ==> e[i].1 == WORK_SECONDS_PER_DAY
                    &&& e[i].0 == today ==> e[i].1 == spec_effective_seconds(calendar, today, secs)
                }
            &&& forall|i: int, j: int| 0 <= i < j < e.len() ==> #[trigger] e[i].0 < #[trigger] e[j].0
            &&& forall|d: int|
                context.cycle.start_date@ <= d <= context.cycle.end_date@ && d <= today
                    && #[trigger] calendar.spec_is_workday(d) ==> exists|i: int| 0 <= i < e.len() && e[i].0 == d
        }),
{
    if today >= context.cycle.start_date@ {
        lemma_expected_entitlements(
            context.calendar,
            context.cycle.start_date@,
            last_counted_day(context.cycle, today),
            today,
            secs,
        );
    }
}

} // verus!
