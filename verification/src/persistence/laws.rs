//! What holds of the ledger across operations: settlement happens at most once, the wallet
//! grows only by settlements, reconciliation does not pay twice, and packaging closes the
//! live session for good.
use vstd::prelude::*;

use super::rows::{daily_lookup, event_lookup};
use super::store::{
    accounted_of, count_pending_of, cycle_lookup, ensure_outcome, record_matches_cycle, lemma_prefix_total, materialize_count, claim_outcome, lemma_pending_cycles_facts, lemma_pending_cycles_sorted, pending_cycles, collect_outcome, counts_sat_sub, gap_items, materialize_outcome,
    package_outcome, reconcile_gap, reconcile_outcome, LedgerStore,
};
use super::{CollectionLedgerEntry, PayrollCycleRecord, LiveRewardStatus, OfflineRewardBag, PersistenceError};
use crate::domain::payroll::PayrollCycle;
use crate::domain::rewards::{RewardCounts, RewardValues};
use crate::text::text_lt;
use crate::time::{Date, Instant};

verus! {

/// An offline bag is settled at most once: after a claim of it succeeded, claiming it again
/// is refused as already claimed and changes nothing.
pub proof fn law_bag_claimed_at_most_once(
    s0: LedgerStore,
    s1: LedgerStore,
    s2: LedgerStore,
    bag_id: Seq<char>,
    first_at: Instant,
    second_at: Instant,
    first: CollectionLedgerEntry,
    second: Result<CollectionLedgerEntry, PersistenceError>,
)
    requires
        claim_outcome(s0, s1, bag_id, first_at, Ok(first)),
        claim_outcome(s1, s2, bag_id, second_at, second),
    ensures
        second is Err && second->Err_0 is BagAlreadyClaimed,
        s2.unchanged_from(s1),
{
    assert(super::bag_lookup(s1.bags_view(), bag_id) is Some);
}

/// A live reward is settled at most once: after collecting it succeeded, collecting it
/// again is refused as already settled and changes nothing.
pub proof fn law_live_reward_collected_at_most_once(
    s0: LedgerStore,
    s1: LedgerStore,
    s2: LedgerStore,
    event_id: Seq<char>,
    first_at: Instant,
    second_at: Instant,
    first: CollectionLedgerEntry,
    second: Result<CollectionLedgerEntry, PersistenceError>,
)
    requires
        collect_outcome(s0, s1, event_id, first_at, Ok(first)),
        collect_outcome(s1, s2, event_id, second_at, second),
    ensures
        second is Err && second->Err_0 is LiveRewardAlreadySettled,
        s2.unchanged_from(s1),
{
    assert(event_lookup(s1.events_view(), event_id) is Some);
}

/// Once the pending live events are packaged into bags, none is pending, and no live event
/// can be collected into the wallet any more: collecting is refused and changes nothing.
pub proof fn law_packaged_events_never_credit_the_wallet(
    s0: LedgerStore,
    s1: LedgerStore,
    s2: LedgerStore,
    packaged_at: Instant,
    bags: Vec<OfflineRewardBag>,
    event_id: Seq<char>,
    collected_at: Instant,
    r: Result<CollectionLedgerEntry, PersistenceError>,
)
    requires
        package_outcome(s0, s1, packaged_at, Ok(bags)),
        collect_outcome(s1, s2, event_id, collected_at, r),
    ensures
        forall|j: int|
            0 <= j < s1.events_view().len() ==> (#[trigger] s1.events_view()[j]).status
                != LiveRewardStatus::Pending,
        r is Err,
        s2.unchanged_from(s1),
{
    let s = s1.events_view();
    if event_lookup(s, event_id) is Some {
        let k = choose|k: int| 0 <= k < s.len() && (#[trigger] s[k]).event_id@ == event_id;
        assert(s[k].status != LiveRewardStatus::Pending);
    }
}

/// Only settlements change the wallet: reconciling, packaging and materializing leave the
/// collection ledger as it was, whatever they return.
pub proof fn law_only_settlements_change_the_wallet(
    r0: LedgerStore,
    r1: LedgerStore,
    cycle_id: Seq<char>,
    period_start: Instant,
    period_end: Instant,
    ents: Seq<(Date, RewardCounts)>,
    values: RewardValues,
    reconciled_at: Instant,
    reconciled: Result<Option<OfflineRewardBag>, PersistenceError>,
    p0: LedgerStore,
    p1: LedgerStore,
    packaged_at: Instant,
    packaged: Result<Vec<OfflineRewardBag>, PersistenceError>,
    m0: LedgerStore,
    m1: LedgerStore,
    work_date: Date,
    entitled: RewardCounts,
    pending_cap: u64,
    created_at: Instant,
    materialized: Result<Vec<super::LiveRewardEvent>, PersistenceError>,
)
    requires
        reconcile_outcome(r0, r1, cycle_id, period_start, period_end, ents, values, reconciled_at, reconciled),
        package_outcome(p0, p1, packaged_at, packaged),
        materialize_outcome(m0, m1, cycle_id, work_date, entitled, values, pending_cap, created_at, materialized),
    ensures
        r1.ledger_view() == r0.ledger_view(),
        p1.ledger_view() == p0.ledger_view(),
        m1.ledger_view() == m0.ledger_view(),
{
}

/// A successful settlement adds exactly one entry to the wallet, carrying the settled
/// source, and keeps every earlier entry.
pub proof fn law_settlement_adds_one_wallet_entry(
    s0: LedgerStore,
    s1: LedgerStore,
    bag_id: Seq<char>,
    claimed_at: Instant,
    claimed: CollectionLedgerEntry,
    t0: LedgerStore,
    t1: LedgerStore,
    event_id: Seq<char>,
    collected_at: Instant,
    collected: CollectionLedgerEntry,
)
    requires
        claim_outcome(s0, s1, bag_id, claimed_at, Ok(claimed)),
        collect_outcome(t0, t1, event_id, collected_at, Ok(collected)),
    ensures
        s1.ledger_view().len() == s0.ledger_view().len() + 1,
        s1.ledger_view().to_multiset() == s0.ledger_view().to_multiset().insert(claimed),
        claimed.source_id@ == bag_id,
        t1.ledger_view().len() == t0.ledger_view().len() + 1,
        t1.ledger_view().to_multiset() == t0.ledger_view().to_multiset().insert(collected),
        collected.source_id@ == event_id,
{
    broadcast use vstd::seq_lib::group_to_multiset_ensures;

    let p = choose|p: int|
        0 <= p <= s0.ledger_view().len() && s1.ledger_view() == s0.ledger_view().insert(p, claimed);
    lemma_insert_multiset(s0.ledger_view(), p, claimed);
    let q = choose|q: int|
        0 <= q <= t0.ledger_view().len() && t1.ledger_view() == t0.ledger_view().insert(q, collected);
    lemma_insert_multiset(t0.ledger_view(), q, collected);
}

/// Inserting into a sequence adds the item to its multiset.
proof fn lemma_insert_multiset<A>(s: Seq<A>, p: int, x: A)
    requires
        0 <= p <= s.len(),
    ensures
        s.insert(p, x).to_multiset() == s.to_multiset().insert(x),
{
    broadcast use vstd::seq_lib::group_to_multiset_ensures;

    let left = s.subrange(0, p);
    let right = s.subrange(p, s.len() as int);
    assert(s == left + right);
    assert(s.insert(p, x) == left.push(x) + right);
    vstd::seq_lib::lemma_multiset_commutative(left.push(x), right);
    vstd::seq_lib::lemma_multiset_commutative(left, right);
}

/// With every entitlement covered by what is accounted, there is nothing to reconcile.
proof fn lemma_no_gaps(daily: Seq<super::DailyRewardState>, cycle: Seq<char>, ents: Seq<(Date, RewardCounts)>)
    requires
        forall|i: int| 0 <= i < ents.len() ==> (#[trigger] reconcile_gap(daily, cycle, ents[i])).is_zero(),
    ensures
        gap_items(daily, cycle, ents).len() == 0,
    decreases ents.len(),
{
    if ents.len() > 0 {
        let rest = ents.drop_last();
        assert forall|i: int| 0 <= i < rest.len() implies (#[trigger] reconcile_gap(daily, cycle, rest[i])).is_zero() by {
            assert(rest[i] == ents[i]);
        }
        lemma_no_gaps(daily, cycle, rest);
        assert(reconcile_gap(daily, cycle, ents[ents.len() - 1]).is_zero());
    }
}

/// Reconciling the same entitlements again pays nothing twice: after a reconciliation
/// succeeded, a second one over the same entitlements finds no gap, creates no bag and
/// returns `None`, whatever its period, values and time.
pub proof fn law_reconcile_is_idempotent(
    s0: LedgerStore,
    s1: LedgerStore,
    s2: LedgerStore,
    cycle_id: Seq<char>,
    ents: Seq<(Date, RewardCounts)>,
    first_start: Instant,
    first_end: Instant,
    first_values: RewardValues,
    first_at: Instant,
    first: Option<OfflineRewardBag>,
    second_start: Instant,
    second_end: Instant,
    second_values: RewardValues,
    second_at: Instant,
    second: Result<Option<OfflineRewardBag>, PersistenceError>,
)
    requires
        reconcile_outcome(s0, s1, cycle_id, first_start, first_end, ents, first_values, first_at, Ok(first)),
        reconcile_outcome(s1, s2, cycle_id, second_start, second_end, ents, second_values, second_at, second),
    ensures
        second == Ok::<Option<OfflineRewardBag>, PersistenceError>(None),
        s2.bags_view() == s1.bags_view(),
        s2.ledger_view() == s1.ledger_view(),
        s2.events_view() == s1.events_view(),
{
    let d0 = s0.daily_view();
    let d1 = s1.daily_view();
    assert forall|i: int| 0 <= i < ents.len() implies (#[trigger] reconcile_gap(d1, cycle_id, ents[i])).is_zero() by {
        let row = daily_lookup(d1, cycle_id, ents[i].0@);
        assert(row is Some);
        let ent = ents[i].1;
        let before = accounted_of(daily_lookup(d0, cycle_id, ents[i].0@));
        if counts_sat_sub(ent, before).is_zero() {
            assert(row.unwrap().accounted == before);
        } else {
            assert(row.unwrap().accounted.silver >= ent.silver);
        }
    }
    lemma_no_gaps(d1, cycle_id, ents);
}


/// Payroll cycles are kept apart: reconciling or materializing the rewards of one cycle
/// leaves the daily reward state of every other cycle as it was.
pub proof fn law_cycles_keep_reward_state_isolated(
    r0: LedgerStore,
    r1: LedgerStore,
    cycle_id: Seq<char>,
    period_start: Instant,
    period_end: Instant,
    ents: Seq<(Date, RewardCounts)>,
    values: RewardValues,
    reconciled_at: Instant,
    reconciled: Result<Option<OfflineRewardBag>, PersistenceError>,
    m0: LedgerStore,
    m1: LedgerStore,
    work_date: Date,
    entitled: RewardCounts,
    pending_cap: u64,
    created_at: Instant,
    materialized: Result<Vec<super::LiveRewardEvent>, PersistenceError>,
    other: Seq<char>,
    day: int,
)
    requires
        reconcile_outcome(r0, r1, cycle_id, period_start, period_end, ents, values, reconciled_at, reconciled),
        materialize_outcome(m0, m1, cycle_id, work_date, entitled, values, pending_cap, created_at, materialized),
        other != cycle_id,
    ensures
        daily_lookup(r1.daily_view(), other, day) == daily_lookup(r0.daily_view(), other, day),
        daily_lookup(m1.daily_view(), other, day) == daily_lookup(m0.daily_view(), other, day),
{
}


/// With no live event pending, no cycle has pending events to package.
proof fn lemma_no_pending_cycles(s: Seq<super::LiveRewardEvent>)
    requires
        forall|j: int| 0 <= j < s.len() ==> (#[trigger] s[j]).status != LiveRewardStatus::Pending,
    ensures
        pending_cycles(s).len() == 0,
    decreases s.len(),
{
    if s.len() > 0 {
        let rest = s.drop_last();
        assert forall|j: int| 0 <= j < rest.len() implies (#[trigger] rest[j]).status != LiveRewardStatus::Pending by {
            assert(rest[j] == s[j]);
        }
        lemma_no_pending_cycles(rest);
        assert(s[s.len() - 1].status != LiveRewardStatus::Pending);
    }
}

/// Packaging is done once: right after the pending live events were packaged, packaging
/// again succeeds with no bag, and leaves every bag and the wallet as they were.
pub proof fn law_packaging_again_creates_no_bag(
    s0: LedgerStore,
    s1: LedgerStore,
    s2: LedgerStore,
    first_at: Instant,
    second_at: Instant,
    first: Vec<OfflineRewardBag>,
    second: Result<Vec<OfflineRewardBag>, PersistenceError>,
)
    requires
        package_outcome(s0, s1, first_at, Ok(first)),
        package_outcome(s1, s2, second_at, second),
    ensures
        second is Ok,
        second->Ok_0@.len() == 0,
        s2.bags_view().len() == s1.bags_view().len(),
        forall|id: Seq<char>| #[trigger] super::bag_lookup(s2.bags_view(), id) == super::bag_lookup(s1.bags_view(), id),
        s2.ledger_view() == s1.ledger_view(),
{
    lemma_no_pending_cycles(s1.events_view());
}


/// Packaging gives one bag per cycle with pending events, the bags coming in the text
/// order of their cycle ids, and leaves no event pending.
pub proof fn law_packaged_bags_follow_cycle_id_order(
    s0: LedgerStore,
    s1: LedgerStore,
    packaged_at: Instant,
    bags: Vec<OfflineRewardBag>,
)
    requires
        package_outcome(s0, s1, packaged_at, Ok(bags)),
    ensures
        forall|i: int, j: int|
            0 <= i < j < bags@.len() ==> text_lt(#[trigger] bags@[i].cycle_id@, #[trigger] bags@[j].cycle_id@),
        forall|k: int|
            0 <= k < s0.events_view().len() && (#[trigger] s0.events_view()[k]).status == LiveRewardStatus::Pending
                ==> exists|i: int| 0 <= i < bags@.len() && (#[trigger] bags@[i]).cycle_id@ == s0.events_view()[k].cycle_id@,
        forall|j: int|
            0 <= j < s1.events_view().len() ==> (#[trigger] s1.events_view()[j]).status != LiveRewardStatus::Pending,
{
    let cycles = pending_cycles(s0.events_view());
    lemma_pending_cycles_sorted(s0.events_view());
    lemma_pending_cycles_facts(s0.events_view());
    assert forall|i: int, j: int| 0 <= i < j < bags@.len() implies text_lt(#[trigger] bags@[i].cycle_id@, #[trigger] bags@[j].cycle_id@) by {
        assert(text_lt(cycles[i], cycles[j]));
    }
    assert forall|k: int|
        0 <= k < s0.events_view().len() && (#[trigger] s0.events_view()[k]).status == LiveRewardStatus::Pending
        implies exists|i: int| 0 <= i < bags@.len() && (#[trigger] bags@[i]).cycle_id@ == s0.events_view()[k].cycle_id@ by {
        let i = choose|i: int| 0 <= i < cycles.len() && cycles[i] == s0.events_view()[k].cycle_id@;
        assert(bags@[i].cycle_id@ == cycles[i]);
    }
}

/// A day's entitled counts are a high-water mark: materializing live rewards never lowers
/// them, and leaves them at least at what was entitled now.
pub proof fn law_entitled_counts_never_decrease(
    s0: LedgerStore,
    s1: LedgerStore,
    cycle_id: Seq<char>,
    work_date: Date,
    entitled: RewardCounts,
    values: RewardValues,
    cap: u64,
    at: Instant,
    events: Vec<super::LiveRewardEvent>,
)
    requires
        materialize_outcome(s0, s1, cycle_id, work_date, entitled, values, cap, at, Ok(events)),
    ensures
        daily_lookup(s1.daily_view(), cycle_id, work_date@) is Some,
        entitled.le(daily_lookup(s1.daily_view(), cycle_id, work_date@)->0.entitled),
        daily_lookup(s0.daily_view(), cycle_id, work_date@) is Some ==> daily_lookup(
            s0.daily_view(),
            cycle_id,
            work_date@,
        )->0.entitled.le(daily_lookup(s1.daily_view(), cycle_id, work_date@)->0.entitled),
{
}

/// Materializing the same entitlement of a work date again creates nothing: after a
/// materialization succeeded, a second one with the same entitlement and cap (whatever its
/// values and time) succeeds with the same pending events, leaves the live events as they
/// were and accounts the day's events once.
pub proof fn law_materialize_again_creates_nothing(
    s0: LedgerStore,
    s1: LedgerStore,
    s2: LedgerStore,
    cycle_id: Seq<char>,
    work_date: Date,
    entitled: RewardCounts,
    first_values: RewardValues,
    second_values: RewardValues,
    cap: u64,
    first_at: Instant,
    second_at: Instant,
    first: Vec<super::LiveRewardEvent>,
    second: Result<Vec<super::LiveRewardEvent>, PersistenceError>,
)
    requires
        entitled.spec_total() <= 2520,
        materialize_outcome(s0, s1, cycle_id, work_date, entitled, first_values, cap, first_at, Ok(first)),
        materialize_outcome(s1, s2, cycle_id, work_date, entitled, second_values, cap, second_at, second),
    ensures
        second is Ok,
        second->Ok_0@ == first@,
        s2.events_view() == s1.events_view(),
        s2.bags_view() == s1.bags_view(),
        s2.ledger_view() == s1.ledger_view(),
        daily_lookup(s2.daily_view(), cycle_id, work_date@) is Some,
        daily_lookup(s2.daily_view(), cycle_id, work_date@)->0.accounted == daily_lookup(
            s1.daily_view(),
            cycle_id,
            work_date@,
        )->0.accounted,
        daily_lookup(s2.daily_view(), cycle_id, work_date@)->0.entitled == daily_lookup(
            s1.daily_view(),
            cycle_id,
            work_date@,
        )->0.entitled,
        daily_lookup(s2.daily_view(), cycle_id, work_date@)->0.collected == daily_lookup(
            s1.daily_view(),
            cycle_id,
            work_date@,
        )->0.collected,
{
    let o0 = daily_lookup(s0.daily_view(), cycle_id, work_date@);
    let a0 = accounted_of(o0).spec_total();
    let k1 = materialize_count(s0.events_view(), cycle_id, a0, entitled.spec_total(), cap as int);
    let row1 = daily_lookup(s1.daily_view(), cycle_id, work_date@)->0;
    assert(0 <= k1);
    assert(a0 >= 0);
    if k1 > 0 {
        assert(a0 + k1 <= entitled.spec_total());
        lemma_prefix_total((a0 + k1) as u64);
    } else {
        assert(row1.accounted == accounted_of(o0));
    }
    let a1 = row1.accounted.spec_total();
    assert(a1 == a0 + k1);
    let k2 = materialize_count(s1.events_view(), cycle_id, a1, entitled.spec_total(), cap as int);
    assert(k2 == 0);
}

/// A payroll cycle's snapshot is frozen once stored: after ensuring a cycle under an id
/// succeeded, ensuring it again with the same snapshot returns the stored record and
/// changes nothing, and ensuring it with a snapshot that differs is refused as a conflict
/// under that id, with the stored record left as it was.
pub proof fn law_payroll_cycle_snapshot_is_frozen(
    s0: LedgerStore,
    s1: LedgerStore,
    s2: LedgerStore,
    cycle_id: Seq<char>,
    cycle: PayrollCycle,
    other: PayrollCycle,
    first_at: Instant,
    second_at: Instant,
    first: PayrollCycleRecord,
    second: Result<PayrollCycleRecord, PersistenceError>,
)
    requires
        ensure_outcome(s0, s1, cycle_id, cycle, first_at, Ok(first)),
        ensure_outcome(s1, s2, cycle_id, other, second_at, second),
    ensures
        s2.unchanged_from(s1),
        cycle_lookup(s2.cycles_view(), cycle_id) == Some(first),
        other == cycle ==> second == Ok::<PayrollCycleRecord, PersistenceError>(first),
        record_matches_cycle(first, cycle_id, other) ==> second == Ok::<PayrollCycleRecord, PersistenceError>(
            first,
        ),
        !record_matches_cycle(first, cycle_id, other) ==> (second matches Err(
            PersistenceError::CycleSnapshotConflict(id),
        ) && id@ == cycle_id),
{
}

} // verus!
