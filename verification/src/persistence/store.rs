//! The reward ledger: frozen payroll cycles, settings, daily reward state, offline reward
//! bags, live reward events and the collection ledger, with all-or-nothing transactions.
use vstd::prelude::*;

use super::{
    CollectionLedgerEntry, DailyRewardState, LiveRewardEvent, LiveRewardStatus, OfflineRewardBag,
    OfflineRewardBagItem, PayrollCycleRecord, PersistenceError, WalletTotals,
};
use super::rows::{
    lemma_filter_keeps_all, lemma_filter_keeps_pairs,
    lemma_event_insert,
    lemma_ledger_hit,
    lemma_after_writes_hit, lemma_after_writes_miss,
    bag_le, bag_lookup, bags_sorted, bags_unique, daily_after, daily_after_writes, daily_key,
    daily_lookup, daily_unique, event_le, event_lookup, events_sorted, events_unique, insert_bag,
    insert_event, insert_ledger, lemma_bag_hit, lemma_daily_hit, lemma_event_hit, ledger_le,
    ledger_lookup, ledger_sorted, ledger_unique, put_daily, set_bag, set_event,
};
use crate::domain::payroll::{PayRates, PayrollCycle, WORK_SECONDS_PER_DAY};
use crate::domain::rewards::{DIAMOND_WEIGHT, GOLD_WEIGHT, WEIGHTED_UNITS_PER_HOUR, counts_for_seconds, counts_of_seconds, event_type_spec, law_counts_monotonic, RewardCounts, RewardType, RewardValues};
use crate::money::{decimal_product, decimal_quotient, decimal_sum, money_value_eq, sum_within_range, Money};
use crate::text::{
    concat, is_blank, is_word_char, lemma_text_lt_strict_total, new_uuid, spec_char_is_whitespace, spec_u64_text,
    text_eq, text_less, text_lt, u64_text,
};
use crate::time::{instant_le, instant_lt, spec_date_text, Date, Instant};

verus! {

// ---------------------------------------------------------------------------------------
// Keys and lookups over the stored rows
// ---------------------------------------------------------------------------------------

pub open spec fn cycle_lookup(s: Seq<PayrollCycleRecord>, cycle_id: Seq<char>) -> Option<
    PayrollCycleRecord,
> {
    if exists|i: int| 0 <= i < s.len() && (#[trigger] s[i]).cycle_id@ == cycle_id {
        Some(s[choose|i: int| 0 <= i < s.len() && (#[trigger] s[i]).cycle_id@ == cycle_id])
    } else {
        None
    }
}

pub open spec fn setting_lookup(s: Seq<(String, String, Instant)>, key: Seq<char>) -> Option<Seq<char>> {
    if exists|i: int| 0 <= i < s.len() && (#[trigger] s[i]).0@ == key {
        Some(s[choose|i: int| 0 <= i < s.len() && (#[trigger] s[i]).0@ == key].1@)
    } else {
        None
    }
}

/// The counts of a full workday's effective seconds: the most one work date can entitle.
pub open spec fn full_day_counts() -> RewardCounts {
    counts_of_seconds(WORK_SECONDS_PER_DAY as u64)
}

/// `collected <= accounted <= entitled <= full day`, count by count.
pub open spec fn counts_ordered(st: DailyRewardState) -> bool {
    st.collected.le(st.accounted) && st.accounted.le(st.entitled) && st.entitled.le(
        full_day_counts(),
    )
}

/// No counts.
pub open spec fn zero_counts() -> RewardCounts {
    RewardCounts { silver: 0, gold: 0, diamond: 0 }
}

/// `a - b` count by count, stopping at zero.
pub open spec fn counts_sat_sub(a: RewardCounts, b: RewardCounts) -> RewardCounts {
    RewardCounts {
        silver: if a.silver >= b.silver { (a.silver - b.silver) as u64 } else { 0 },
        gold: if a.gold >= b.gold { (a.gold - b.gold) as u64 } else { 0 },
        diamond: if a.diamond >= b.diamond { (a.diamond - b.diamond) as u64 } else { 0 },
    }
}

/// The larger of each count.
pub open spec fn counts_max(a: RewardCounts, b: RewardCounts) -> RewardCounts {
    RewardCounts {
        silver: if a.silver >= b.silver { a.silver } else { b.silver },
        gold: if a.gold >= b.gold { a.gold } else { b.gold },
        diamond: if a.diamond >= b.diamond { a.diamond } else { b.diamond },
    }
}

/// `a + b`, count by count, as integers.
pub open spec fn counts_sum(a: (int, int, int), b: (int, int, int)) -> (int, int, int) {
    (a.0 + b.0, a.1 + b.1, a.2 + b.2)
}

/// Every count fits the signed 64-bit range the ledger stores.
pub open spec fn triple_fits_i64(t: (int, int, int)) -> bool {
    t.0 <= i64::MAX && t.1 <= i64::MAX && t.2 <= i64::MAX
}

/// Every count fits `u64`.
pub open spec fn triple_fits_u64(t: (int, int, int)) -> bool {
    t.0 <= u64::MAX && t.1 <= u64::MAX && t.2 <= u64::MAX
}

/// The later of two instants.
pub open spec fn instant_max(a: (int, int), b: (int, int)) -> (int, int) {
    if instant_lt(a, b) {
        b
    } else {
        a
    }
}

pub open spec fn cycles_unique(s: Seq<PayrollCycleRecord>) -> bool {
    forall|i: int, j: int|
        0 <= i < j < s.len() ==> (#[trigger] s[i]).cycle_id@ != (#[trigger] s[j]).cycle_id@
}

pub open spec fn settings_unique(s: Seq<(String, String, Instant)>) -> bool {
    forall|i: int, j: int| 0 <= i < j < s.len() ==> (#[trigger] s[i]).0@ != (#[trigger] s[j]).0@
}

/// The number of live events of a status (all when `None`).
pub open spec fn count_events_with(s: Seq<LiveRewardEvent>, status: Option<LiveRewardStatus>) -> int
    decreases s.len(),
{
    if s.len() == 0 {
        0
    } else {
        count_events_with(s.drop_last(), status) + if status is None || s.last().status
            == status.unwrap() {
            1int
        } else {
            0int
        }
    }
}

/// The number of pending live events of a cycle.
pub open spec fn count_pending_of(s: Seq<LiveRewardEvent>, cycle: Seq<char>) -> int
    decreases s.len(),
{
    if s.len() == 0 {
        0
    } else {
        count_pending_of(s.drop_last(), cycle) + if s.last().cycle_id@ == cycle && s.last().status
            == LiveRewardStatus::Pending {
            1int
        } else {
            0int
        }
    }
}

/// The pending live events of a cycle, in stored order.
pub open spec fn pending_of(s: Seq<LiveRewardEvent>, cycle: Seq<char>) -> Seq<LiveRewardEvent> {
    s.filter(|e: LiveRewardEvent| e.cycle_id@ == cycle && e.status == LiveRewardStatus::Pending)
}

/// The bags of a cycle (all when `None`), in stored order.
pub open spec fn bags_of(s: Seq<OfflineRewardBag>, cycle: Option<Seq<char>>) -> Seq<OfflineRewardBag> {
    s.filter(|b: OfflineRewardBag| cycle is None || b.cycle_id@ == cycle.unwrap())
}

/// The ledger entries of a cycle (all when `None`), in stored order.
pub open spec fn ledger_of(s: Seq<CollectionLedgerEntry>, cycle: Option<Seq<char>>) -> Seq<
    CollectionLedgerEntry,
> {
    s.filter(|e: CollectionLedgerEntry| cycle is None || e.cycle_id@ == cycle.unwrap())
}

/// The sums of the counts of ledger entries.
pub open spec fn ledger_count_sums(s: Seq<CollectionLedgerEntry>) -> (int, int, int)
    decreases s.len(),
{
    if s.len() == 0 {
        (0, 0, 0)
    } else {
        let r = ledger_count_sums(s.drop_last());
        (r.0 + s.last().counts.silver, r.1 + s.last().counts.gold, r.2 + s.last().counts.diamond)
    }
}

// ---------------------------------------------------------------------------------------
// Reconciling offline entitlements
// ---------------------------------------------------------------------------------------

/// The accounted counts of a daily row (none for a missing row).
pub open spec fn accounted_of(o: Option<DailyRewardState>) -> RewardCounts {
    match o {
        Some(st) => st.accounted,
        None => zero_counts(),
    }
}

/// The collected counts of a daily row (none for a missing row).
pub open spec fn collected_of(o: Option<DailyRewardState>) -> RewardCounts {
    match o {
        Some(st) => st.collected,
        None => zero_counts(),
    }
}

/// The entitlement of a daily row once `ent` is merged in: the larger of each count.
pub open spec fn entitled_merge(o: Option<DailyRewardState>, ent: RewardCounts) -> RewardCounts {
    match o {
        Some(st) => counts_max(st.entitled, ent),
        None => ent,
    }
}

/// The update time of a daily row once touched at `at`: the later of the two.
pub open spec fn updated_merge(o: Option<DailyRewardState>, at: (int, int)) -> (int, int) {
    match o {
        Some(st) => instant_max(st.updated_at@, at),
        None => at,
    }
}

/// `r` is the row `o` of `cycle` and `day` with the entitlement `ent` merged in, touched at `at`.
pub open spec fn merged_row(
    r: DailyRewardState,
    o: Option<DailyRewardState>,
    cycle: Seq<char>,
    day: int,
    ent: RewardCounts,
    at: Instant,
) -> bool {
    &&& daily_key(r, cycle, day)
    &&& r.entitled == entitled_merge(o, ent)
    &&& r.accounted == accounted_of(o)
    &&& r.collected == collected_of(o)
    &&& r.updated_at@ == updated_merge(o, at@)
}

/// What a reconciliation finds entitled on a work date and not yet accounted.
pub open spec fn reconcile_gap(
    daily: Seq<DailyRewardState>,
    cycle: Seq<char>,
    e: (Date, RewardCounts),
) -> RewardCounts {
    counts_sat_sub(e.1, accounted_of(daily_lookup(daily, cycle, e.0@)))
}

/// The row after reconciling: the entitlement merged in; where there is a gap, the gap is
/// accounted too and the row is stamped with the reconciliation time.
pub open spec fn reconciled_row(
    r: DailyRewardState,
    o: Option<DailyRewardState>,
    cycle: Seq<char>,
    day: int,
    ent: RewardCounts,
    at: Instant,
) -> bool {
    if counts_sat_sub(ent, accounted_of(o)).is_zero() {
        merged_row(r, o, cycle, day, ent, at)
    } else {
        &&& daily_key(r, cycle, day)
        &&& r.entitled == entitled_merge(o, ent)
        &&& r.accounted == counts_max(accounted_of(o), ent)
        &&& r.collected == collected_of(o)
        &&& r.updated_at == at
    }
}

/// The sum of the reconciliation gaps.
pub open spec fn gap_total(
    daily: Seq<DailyRewardState>,
    cycle: Seq<char>,
    ents: Seq<(Date, RewardCounts)>,
) -> (int, int, int)
    decreases ents.len(),
{
    if ents.len() == 0 {
        (0, 0, 0)
    } else {
        counts_sum(
            gap_total(daily, cycle, ents.drop_last()),
            reconcile_gap(daily, cycle, ents.last()).spec_triple(),
        )
    }
}

/// The work dates with a gap, and their gaps, in entitlement order.
pub open spec fn gap_items(
    daily: Seq<DailyRewardState>,
    cycle: Seq<char>,
    ents: Seq<(Date, RewardCounts)>,
) -> Seq<(int, RewardCounts)>
    decreases ents.len(),
{
    if ents.len() == 0 {
        Seq::empty()
    } else {
        let g = reconcile_gap(daily, cycle, ents.last());
        if g.is_zero() {
            gap_items(daily, cycle, ents.drop_last())
        } else {
            gap_items(daily, cycle, ents.drop_last()).push((ents.last().0@, g))
        }
    }
}

/// No two entitlements name the same work date.
pub open spec fn dates_distinct(ents: Seq<(Date, RewardCounts)>) -> bool {
    forall|i: int, j: int| 0 <= i < j < ents.len() ==> (#[trigger] ents[i]).0@ != (#[trigger] ents[j]).0@
}

/// Some entitlement names the work date.
pub open spec fn date_listed(ents: Seq<(Date, RewardCounts)>, day: int) -> bool {
    exists|i: int| 0 <= i < ents.len() && (#[trigger] ents[i]).0@ == day
}

/// The daily rows `new` are the rows `old` with every entitlement reconciled.
pub open spec fn daily_reconciled(
    new: Seq<DailyRewardState>,
    old: Seq<DailyRewardState>,
    cycle: Seq<char>,
    ents: Seq<(Date, RewardCounts)>,
    at: Instant,
) -> bool {
    &&& forall|i: int|
        0 <= i < ents.len() ==> ((#[trigger] daily_lookup(new, cycle, ents[i].0@)) is Some
            && reconciled_row(
            daily_lookup(new, cycle, ents[i].0@).unwrap(),
            daily_lookup(old, cycle, ents[i].0@),
            cycle,
            ents[i].0@,
            ents[i].1,
            at,
        ))
    &&& forall|c: Seq<char>, d: int|
        !(c == cycle && date_listed(ents, d)) ==> #[trigger] daily_lookup(new, c, d) == daily_lookup(
            old,
            c,
            d,
        )
}

/// The bag items `items` carry the bag id and the gaps, in order.
pub open spec fn items_match(
    items: Seq<OfflineRewardBagItem>,
    bag_id: Seq<char>,
    gaps: Seq<(int, RewardCounts)>,
) -> bool {
    &&& items.len() == gaps.len()
    &&& forall|k: int|
        0 <= k < items.len() ==> (#[trigger] items[k]).bag_id@ == bag_id && items[k].work_date@
            == gaps[k].0 && items[k].counts == gaps[k].1
}

pub proof fn lemma_gap_total_monotonic(
    daily: Seq<DailyRewardState>,
    cycle: Seq<char>,
    ents: Seq<(Date, RewardCounts)>,
    a: int,
)
    requires
        0 <= a <= ents.len(),
    ensures
        gap_total(daily, cycle, ents.take(a)).0 <= gap_total(daily, cycle, ents).0,
        gap_total(daily, cycle, ents.take(a)).1 <= gap_total(daily, cycle, ents).1,
        gap_total(daily, cycle, ents.take(a)).2 <= gap_total(daily, cycle, ents).2,
        gap_total(daily, cycle, ents).0 >= 0,
        gap_total(daily, cycle, ents).1 >= 0,
        gap_total(daily, cycle, ents).2 >= 0,
    decreases ents.len(),
{
    if ents.len() > 0 {
        let e2 = ents.drop_last();
        if a < ents.len() {
            assert(ents.take(a) == e2.take(a));
        } else {
            assert(ents.take(a) == ents);
        }
        lemma_gap_total_monotonic(daily, cycle, e2, if a < ents.len() { a } else { 0 });
    }
}

/// The counts of an integer triple (each count assumed in range).
pub open spec fn counts_from_triple(t: (int, int, int)) -> RewardCounts {
    RewardCounts { silver: t.0 as u64, gold: t.1 as u64, diamond: t.2 as u64 }
}

pub proof fn lemma_gaps_empty_total_zero(
    daily: Seq<DailyRewardState>,
    cycle: Seq<char>,
    ents: Seq<(Date, RewardCounts)>,
)
    ensures
        gap_items(daily, cycle, ents).len() == 0 ==> gap_total(daily, cycle, ents) == (0int, 0int, 0int),
    decreases ents.len(),
{
    if ents.len() > 0 {
        lemma_gaps_empty_total_zero(daily, cycle, ents.drop_last());
    }
}

/// Writing one reconciled row per entitlement, on distinct keys, reconciles the daily rows.
pub proof fn lemma_reconciled_from_writes(
    new: Seq<DailyRewardState>,
    old: Seq<DailyRewardState>,
    writes: Seq<DailyRewardState>,
    cycle: Seq<char>,
    ents: Seq<(Date, RewardCounts)>,
    at: Instant,
)
    requires
        writes.len() == ents.len(),
        daily_unique(writes),
        forall|i: int|
            0 <= i < writes.len() ==> reconciled_row(
                #[trigger] writes[i],
                daily_lookup(old, cycle, ents[i].0@),
                cycle,
                ents[i].0@,
                ents[i].1,
                at,
            ),
        forall|c: Seq<char>, d: int| #[trigger] daily_lookup(new, c, d) == daily_after_writes(old, writes, c, d),
    ensures
        daily_reconciled(new, old, cycle, ents, at),
{
    assert forall|i: int| 0 <= i < ents.len() implies ((#[trigger] daily_lookup(new, cycle, ents[i].0@)) is Some
        && reconciled_row(
        daily_lookup(new, cycle, ents[i].0@).unwrap(),
        daily_lookup(old, cycle, ents[i].0@),
        cycle,
        ents[i].0@,
        ents[i].1,
        at,
    )) by {
        assert(reconciled_row(writes[i], daily_lookup(old, cycle, ents[i].0@), cycle, ents[i].0@, ents[i].1, at));
        lemma_after_writes_hit(old, writes, i, cycle, ents[i].0@);
    }
    assert forall|c: Seq<char>, d: int|
        !(c == cycle && date_listed(ents, d)) implies #[trigger] daily_lookup(new, c, d) == daily_lookup(
            old,
            c,
            d,
        ) by {
        assert forall|i: int| 0 <= i < writes.len() implies !daily_key(#[trigger] writes[i], c, d) by {
            assert(reconciled_row(writes[i], daily_lookup(old, cycle, ents[i].0@), cycle, ents[i].0@, ents[i].1, at));
            if daily_key(writes[i], c, d) {
                assert(ents[i].0@ == d);
                assert(date_listed(ents, d));
            }
        }
        lemma_after_writes_miss(old, writes, c, d);
    }
}

// ---------------------------------------------------------------------------------------
// Claiming a bag and collecting a live event
// ---------------------------------------------------------------------------------------

/// The items of a bag, in stored order.
pub open spec fn bag_items_of(items: Seq<OfflineRewardBagItem>, bag_id: Seq<char>) -> Seq<
    OfflineRewardBagItem,
> {
    items.filter(|it: OfflineRewardBagItem| it.bag_id@ == bag_id)
}

/// `st` with `counts` more collected at `at`, if the collected counts stay within the
/// accounted ones.
pub open spec fn collect_into(st: DailyRewardState, counts: RewardCounts, at: Instant) -> Option<
    DailyRewardState,
> {
    let sum = counts_sum(st.collected.spec_triple(), counts.spec_triple());
    if sum.0 <= st.accounted.silver && sum.1 <= st.accounted.gold && sum.2 <= st.accounted.diamond {
        Some(DailyRewardState { collected: counts_from_triple(sum), updated_at: at, ..st })
    } else {
        None
    }
}

/// The daily writes of collecting `items` of a cycle's bag one after the other, each on the
/// row as the earlier ones left it; `None` when a row is missing or would collect more than
/// it accounts.
pub open spec fn claim_writes(
    daily: Seq<DailyRewardState>,
    cycle: Seq<char>,
    items: Seq<OfflineRewardBagItem>,
    at: Instant,
) -> Option<Seq<DailyRewardState>>
    decreases items.len(),
{
    if items.len() == 0 {
        Some(Seq::empty())
    } else {
        match claim_writes(daily, cycle, items.drop_last(), at) {
            None => None,
            Some(w) => match daily_after_writes(daily, w, cycle, items.last().work_date@) {
                None => None,
                Some(st) => match collect_into(st, items.last().counts, at) {
                    None => None,
                    Some(r) => Some(w.push(r)),
                },
            },
        }
    }
}

/// A bag marked claimed at `at`.
pub open spec fn claimed_bag(b: OfflineRewardBag, at: Instant) -> OfflineRewardBag {
    OfflineRewardBag { claimed: true, claimed_at: Some(at), ..b }
}

/// `e` is the ledger entry of collecting `counts` worth `value` from `source_id` of
/// `source_type` in `cycle` at `at`.
pub open spec fn entry_for(
    e: CollectionLedgerEntry,
    cycle: Seq<char>,
    source_type: Seq<char>,
    source_id: Seq<char>,
    counts: RewardCounts,
    value: Money,
    at: Instant,
) -> bool {
    &&& e.cycle_id@ == cycle
    &&& e.source_type@ == source_type
    &&& e.source_id@ == source_id
    &&& e.counts == counts
    &&& e.exact_value == value
    &&& e.created_at == at
}

pub proof fn lemma_collect_into_ordered(st: DailyRewardState, counts: RewardCounts, at: Instant)
    requires
        counts_ordered(st),
        collect_into(st, counts, at) is Some,
    ensures
        counts_ordered(collect_into(st, counts, at).unwrap()),
        daily_key(collect_into(st, counts, at).unwrap(), st.cycle_id@, st.work_date@),
{
}

/// Every row the writes leave has its key and stays ordered.
pub proof fn lemma_after_writes_ordered(
    rows: Seq<DailyRewardState>,
    writes: Seq<DailyRewardState>,
    cycle: Seq<char>,
    day: int,
)
    requires
        forall|i: int| 0 <= i < rows.len() ==> counts_ordered(#[trigger] rows[i]),
        forall|i: int| 0 <= i < writes.len() ==> counts_ordered(#[trigger] writes[i]),
    ensures
        daily_after_writes(rows, writes, cycle, day) matches Some(st) ==> counts_ordered(st)
            && daily_key(st, cycle, day),
    decreases writes.len(),
{
    if writes.len() == 0 {
        if exists|i: int| 0 <= i < rows.len() && daily_key(#[trigger] rows[i], cycle, day) {
            let i = choose|i: int| 0 <= i < rows.len() && daily_key(#[trigger] rows[i], cycle, day);
            assert(counts_ordered(rows[i]));
        }
    } else {
        assert(counts_ordered(writes[writes.len() - 1]));
        let w2 = writes.drop_last();
        assert forall|i: int| 0 <= i < w2.len() implies counts_ordered(#[trigger] w2[i]) by {
            assert(w2[i] == writes[i]);
        }
        lemma_after_writes_ordered(rows, w2, cycle, day);
    }
}

/// Once collecting a prefix of the bag's items fails, collecting all of them fails.
pub proof fn lemma_claim_writes_fail_extends(
    daily: Seq<DailyRewardState>,
    cycle: Seq<char>,
    items: Seq<OfflineRewardBagItem>,
    bag_id: Seq<char>,
    at: Instant,
    n: int,
)
    requires
        0 <= n <= items.len(),
        claim_writes(daily, cycle, bag_items_of(items.take(n), bag_id), at) is None,
    ensures
        claim_writes(daily, cycle, bag_items_of(items, bag_id), at) is None,
    decreases items.len() - n,
{
    if n == items.len() {
        assert(items.take(n) == items);
    } else {
        let next = items.take(n + 1);
        assert(next.drop_last() == items.take(n));
        assert(next.last() == items[n]);
        let f = bag_items_of(items.take(n), bag_id);
        reveal(Seq::filter);
        if items[n].bag_id@ == bag_id {
            assert(bag_items_of(next, bag_id) == f.push(items[n]));
            assert(bag_items_of(next, bag_id).drop_last() == f);
        } else {
            assert(bag_items_of(next, bag_id) == f);
        }
        lemma_claim_writes_fail_extends(daily, cycle, items, bag_id, at, n + 1);
    }
}

/// The counts of one event of a type.
pub open spec fn unit_counts(t: RewardType) -> RewardCounts {
    counts_from_triple(t.unit_triple())
}

/// A live event marked collected at `at`.
pub open spec fn collected_event(e: LiveRewardEvent, at: Instant) -> LiveRewardEvent {
    LiveRewardEvent { status: LiveRewardStatus::Collected, collected_at: Some(at), ..e }
}

// ---------------------------------------------------------------------------------------
// Materializing live events
// ---------------------------------------------------------------------------------------

/// The stable id of the live event of a cycle, work date and event index:
/// `{cycle}:{work date}:{index}`.
pub open spec fn event_id_text(cycle: Seq<char>, day: int, index: int) -> Seq<char> {
    cycle + ":"@ + spec_date_text(day) + ":"@ + spec_u64_text(index as u64)
}

/// The counts are those of their own first events: the entitlement of
/// `10 * total events` seconds.
pub open spec fn is_event_prefix(c: RewardCounts) -> bool {
    c == counts_of_seconds((10 * c.spec_total()) as u64)
}

/// How many events a materialization creates: the events entitled and not yet accounted,
/// but no more than the room left under the cap on pending events of the cycle.
pub open spec fn materialize_count(
    events: Seq<LiveRewardEvent>,
    cycle: Seq<char>,
    accounted_total: int,
    entitled_total: int,
    cap: int,
) -> int {
    let room = if entitled_total > accounted_total {
        entitled_total - accounted_total
    } else {
        0
    };
    let pending = count_pending_of(events, cycle);
    let capacity = if cap > pending {
        cap - pending
    } else {
        0
    };
    if room < capacity {
        room
    } else {
        capacity
    }
}

/// `ev` is the pending live event of `cycle`, `day` and `index`, created at `at`.
pub open spec fn fresh_event(
    ev: LiveRewardEvent,
    cycle: Seq<char>,
    day: int,
    index: int,
    values: RewardValues,
    at: Instant,
) -> bool {
    &&& ev.event_id@ == event_id_text(cycle, day, index)
    &&& ev.cycle_id@ == cycle
    &&& ev.work_date@ == day
    &&& ev.event_index == index
    &&& ev.effective_second_boundary == 10 * index
    &&& event_type_spec(index) == Some(ev.reward_type)
    &&& ev.status == LiveRewardStatus::Pending
    &&& ev.exact_value@ == values.value_of_spec(ev.reward_type)
    &&& ev.created_at == at
    &&& ev.collected_at is None
    &&& ev.packaged_bag_id is None
}

/// The ids of the events `a + 1 ..= a + k` are in use neither in `events` nor among
/// themselves.
pub open spec fn event_ids_free(events: Seq<LiveRewardEvent>, cycle: Seq<char>, day: int, a: int, k: int) -> bool {
    &&& forall|j: int| 1 <= j <= k ==> #[trigger] event_lookup(events, event_id_text(cycle, day, a + j)) is None
    &&& forall|i: int, j: int|
        1 <= i < j <= k ==> #[trigger] event_id_text(cycle, day, a + i) != #[trigger] event_id_text(
            cycle,
            day,
            a + j,
        )
}

/// Whether an event is a pending event of a cycle, as a count.
pub open spec fn pending_in(e: LiveRewardEvent, cycle: Seq<char>) -> int {
    if e.cycle_id@ == cycle && e.status == LiveRewardStatus::Pending {
        1int
    } else {
        0int
    }
}

/// Inserting an event adds it to the count of pending events of its cycle.
pub proof fn lemma_count_pending_insert(s: Seq<LiveRewardEvent>, p: int, e: LiveRewardEvent, cycle: Seq<char>)
    requires
        0 <= p <= s.len(),
    ensures
        count_pending_of(s.insert(p, e), cycle) == count_pending_of(s, cycle) + pending_in(e, cycle),
    decreases s.len(),
{
    let t = s.insert(p, e);
    if p == s.len() {
        assert(t.drop_last() == s);
        assert(t.last() == e);
    } else {
        lemma_count_pending_insert(s.drop_last(), p, e, cycle);
        assert(t.drop_last() == s.drop_last().insert(p, e));
        assert(t.last() == s.last());
    }
}

/// A sequence of pending events of one cycle counts all of them.
pub proof fn lemma_count_pending_all(s: Seq<LiveRewardEvent>, cycle: Seq<char>)
    requires
        forall|i: int| 0 <= i < s.len() ==> pending_in(#[trigger] s[i], cycle) == 1,
    ensures
        count_pending_of(s, cycle) == s.len(),
    decreases s.len(),
{
    if s.len() > 0 {
        let t = s.drop_last();
        assert forall|i: int| 0 <= i < t.len() implies pending_in(#[trigger] t[i], cycle) == 1 by {
            assert(t[i] == s[i]);
        }
        lemma_count_pending_all(t, cycle);
        assert(pending_in(s[s.len() - 1], cycle) == 1);
    }
}

/// The events of a seconds-prefix of `n` events count `n`.
pub proof fn lemma_prefix_total(n: u64)
    requires
        n <= 2520,
    ensures
        counts_of_seconds((10 * n) as u64).spec_total() == n,
{
}

/// The number of pending events of a cycle among the first events.
pub proof fn lemma_count_pending_step(s: Seq<LiveRewardEvent>, cycle: Seq<char>, i: int)
    requires
        0 <= i < s.len(),
    ensures
        count_pending_of(s.take(i + 1), cycle) == count_pending_of(s.take(i), cycle) + if s[i].cycle_id@
            == cycle && s[i].status == LiveRewardStatus::Pending {
            1int
        } else {
            0int
        },
{
    assert(s.take(i + 1).drop_last() == s.take(i));
}

/// The daily row after materializing `created` events: the entitlement merged in, the
/// first `accounted + created` events accounted, and stamped with the time when some were
/// created.
pub open spec fn materialized_row(
    r: DailyRewardState,
    o: Option<DailyRewardState>,
    cycle: Seq<char>,
    day: int,
    ent: RewardCounts,
    at: Instant,
    created: int,
) -> bool {
    &&& daily_key(r, cycle, day)
    &&& r.entitled == entitled_merge(o, ent)
    &&& r.accounted == counts_of_seconds((10 * (accounted_of(o).spec_total() + created)) as u64)
    &&& r.collected == collected_of(o)
    &&& r.updated_at@ == if created > 0 {
        at@
    } else {
        updated_merge(o, at@)
    }
}

pub proof fn lemma_ids_free_prefix(
    events: Seq<LiveRewardEvent>,
    cycle: Seq<char>,
    day: int,
    a: int,
    n: int,
    k: int,
)
    requires
        1 <= n <= k,
        !event_ids_free(events, cycle, day, a, n),
    ensures
        !event_ids_free(events, cycle, day, a, k),
{
    if exists|j: int| 1 <= j <= n && #[trigger] event_lookup(events, event_id_text(cycle, day, a + j)) is Some {
        let j = choose|j: int| 1 <= j <= n && #[trigger] event_lookup(events, event_id_text(cycle, day, a + j)) is Some;
        assert(1 <= j <= k);
    } else {
        let (i, j) = choose|i: int, j: int|
            1 <= i < j <= n && #[trigger] event_id_text(cycle, day, a + i) == #[trigger] event_id_text(cycle, day, a + j);
        assert(1 <= i < j <= k);
    }
}

pub proof fn lemma_counts_of_seconds_triple(s: u64)
    ensures
        counts_of_seconds(s).spec_triple() == counts_for_seconds(s as int),
{
}

/// Accounting `k` more events of an event prefix of `a` events stays within the entitlement
/// when `a + k` events are entitled.
pub proof fn lemma_materialized_counts(
    accounted: RewardCounts,
    entitled: RewardCounts,
    entitled_m: RewardCounts,
    o: Option<DailyRewardState>,
    a: int,
    k: int,
    e: int,
)
    requires
        accounted == counts_of_seconds((a * 10) as u64),
        is_event_prefix(entitled),
        e == entitled.spec_total(),
        a == accounted.spec_total(),
        0 <= a,
        0 <= k,
        k == 0 || a + k <= e,
        e <= 2520,
        accounted.le(entitled_m),
        entitled.le(entitled_m),
    ensures
        counts_of_seconds(((a + k) * 10) as u64).le(entitled_m),
        accounted.le(counts_of_seconds(((a + k) * 10) as u64)),
{
    lemma_counts_of_seconds_triple(((a + k) * 10) as u64);
    lemma_counts_of_seconds_triple((a * 10) as u64);
    law_counts_monotonic(a * 10, (a + k) * 10);
    if k > 0 {
        lemma_counts_of_seconds_triple((10 * e) as u64);
        law_counts_monotonic((a + k) * 10, e * 10);
    }
}

/// The events after adding the fresh events `a + 1 ..= a + k`.
pub proof fn lemma_materialized_events(
    new: Seq<LiveRewardEvent>,
    old: Seq<LiveRewardEvent>,
    fresh: Seq<LiveRewardEvent>,
    cycle: Seq<char>,
    day: int,
    a: int,
    k: int,
    values: RewardValues,
    at: Instant,
)
    requires
        fresh.len() == k,
        events_unique(fresh),
        forall|i: int| 0 <= i < k ==> fresh_event(#[trigger] fresh[i], cycle, day, a + i + 1, values, at),
        forall|id: Seq<char>|
            #[trigger] event_lookup(new, id) == if event_lookup(fresh, id) is Some {
                event_lookup(fresh, id)
            } else {
                event_lookup(old, id)
            },
    ensures
        forall|j: int|
            1 <= j <= k ==> (#[trigger] event_lookup(new, event_id_text(cycle, day, a + j))) is Some
                && fresh_event(event_lookup(new, event_id_text(cycle, day, a + j)).unwrap(), cycle, day, a + j, values, at),
        forall|id: Seq<char>|
            (forall|j: int| 1 <= j <= k ==> id != #[trigger] event_id_text(cycle, day, a + j))
                ==> #[trigger] event_lookup(new, id) == event_lookup(old, id),
{
    assert forall|jj: int| 1 <= jj <= k implies (#[trigger] event_lookup(new, event_id_text(cycle, day, a + jj))) is Some
        && fresh_event(event_lookup(new, event_id_text(cycle, day, a + jj)).unwrap(), cycle, day, a + jj, values, at) by {
        assert(fresh_event(fresh[jj - 1], cycle, day, a + (jj - 1) + 1, values, at));
        lemma_event_hit(fresh, jj - 1, event_id_text(cycle, day, a + jj));
    }
    assert forall|id: Seq<char>|
        (forall|jj: int| 1 <= jj <= k ==> id != #[trigger] event_id_text(cycle, day, a + jj))
            implies #[trigger] event_lookup(new, id) == event_lookup(old, id) by {
        assert forall|i: int| 0 <= i < fresh.len() implies (#[trigger] fresh[i]).event_id@ != id by {
            assert(fresh_event(fresh[i], cycle, day, a + i + 1, values, at));
            assert(id != event_id_text(cycle, day, a + (i + 1)));
        }
    }
}

// ---------------------------------------------------------------------------------------
// Packaging pending live events into bags
// ---------------------------------------------------------------------------------------

/// How many ids of `r` come before `x` in text order.
pub open spec fn count_before(r: Seq<Seq<char>>, x: Seq<char>) -> nat
    decreases r.len(),
{
    if r.len() == 0 {
        0
    } else {
        count_before(r.drop_last(), x) + if text_lt(r.last(), x) {
            1nat
        } else {
            0nat
        }
    }
}

/// Counting the ids before `x` counts at most all of them.
pub proof fn lemma_count_before_len(r: Seq<Seq<char>>, x: Seq<char>)
    ensures
        count_before(r, x) <= r.len(),
    decreases r.len(),
{
    if r.len() > 0 {
        lemma_count_before_len(r.drop_last(), x);
    }
}

/// The cycles with pending events, each once, in text order of their ids: each cycle is
/// placed after the ids before it.
pub open spec fn pending_cycles(s: Seq<LiveRewardEvent>) -> Seq<Seq<char>>
    decreases s.len(),
{
    if s.len() == 0 {
        Seq::empty()
    } else {
        let r = pending_cycles(s.drop_last());
        let e = s.last();
        if e.status == LiveRewardStatus::Pending && !r.contains(e.cycle_id@) {
            r.insert(count_before(r, e.cycle_id@) as int, e.cycle_id@)
        } else {
            r
        }
    }
}

/// The counts of the events, added up.
pub open spec fn unit_sum(s: Seq<LiveRewardEvent>) -> (int, int, int)
    decreases s.len(),
{
    if s.len() == 0 {
        (0, 0, 0)
    } else {
        counts_sum(unit_sum(s.drop_last()), s.last().reward_type.unit_triple())
    }
}

/// The exact values of the events, added up from zero as `Decimal` adds them.
pub open spec fn value_sum(s: Seq<LiveRewardEvent>) -> (int, nat)
    decreases s.len(),
{
    if s.len() == 0 {
        (0, 0)
    } else {
        decimal_sum(value_sum(s.drop_last()), s.last().exact_value@)
    }
}

/// Every partial sum of the exact values stays inside the decimal range.
pub open spec fn values_in_range(s: Seq<LiveRewardEvent>) -> bool
    decreases s.len(),
{
    s.len() == 0 || (values_in_range(s.drop_last()) && sum_within_range(
        value_sum(s.drop_last()),
        s.last().exact_value@,
    ))
}

/// The earliest creation time of the events, and `at` if that is earlier.
pub open spec fn earliest_created(s: Seq<LiveRewardEvent>, at: (int, int)) -> (int, int)
    decreases s.len(),
{
    if s.len() == 0 {
        at
    } else {
        let r = earliest_created(s.drop_last(), at);
        if instant_lt(s.last().created_at@, r) {
            s.last().created_at@
        } else {
            r
        }
    }
}

/// The events' counts per work date, for events ordered by work date.
pub open spec fn date_groups(s: Seq<LiveRewardEvent>) -> Seq<(int, (int, int, int))>
    decreases s.len(),
{
    if s.len() == 0 {
        Seq::empty()
    } else {
        let g = date_groups(s.drop_last());
        let e = s.last();
        if g.len() > 0 && g.last().0 == e.work_date@ {
            g.update(g.len() - 1, (e.work_date@, counts_sum(g.last().1, e.reward_type.unit_triple())))
        } else {
            g.push((e.work_date@, e.reward_type.unit_triple()))
        }
    }
}

/// `b` is the bag that packages the pending events `p` of `cycle` at `at`.
pub open spec fn package_bag(b: OfflineRewardBag, cycle: Seq<char>, p: Seq<LiveRewardEvent>, at: Instant) -> bool {
    &&& b.cycle_id@ == cycle
    &&& b.counts.spec_triple() == unit_sum(p)
    &&& b.exact_value@ == value_sum(p)
    &&& b.period_start@ == earliest_created(p, at@)
    &&& b.period_end == at
    &&& b.created_at == at
    &&& !b.claimed
    &&& b.claimed_at is None
}

/// `n` is the event `e` packaged into the bag `bag_id`.
pub open spec fn packaged_event(n: LiveRewardEvent, e: LiveRewardEvent, bag_id: Seq<char>) -> bool {
    &&& n.event_id == e.event_id
    &&& n.cycle_id == e.cycle_id
    &&& n.work_date == e.work_date
    &&& n.effective_second_boundary == e.effective_second_boundary
    &&& n.event_index == e.event_index
    &&& n.reward_type == e.reward_type
    &&& n.status == LiveRewardStatus::Packaged
    &&& n.exact_value == e.exact_value
    &&& n.created_at == e.created_at
    &&& n.collected_at == e.collected_at
    &&& n.packaged_bag_id matches Some(id) && id@ == bag_id
}

/// The bag of a cycle among `bags`, by index.
pub open spec fn bag_of_cycle(bags: Seq<OfflineRewardBag>, cycle: Seq<char>) -> int {
    choose|i: int| 0 <= i < bags.len() && (#[trigger] bags[i]).cycle_id@ == cycle
}

/// `n` is `e` after packaging into `bags`: a pending event is packaged into the bag of its
/// cycle; any other event is unchanged.
pub open spec fn after_packaging(n: LiveRewardEvent, e: LiveRewardEvent, bags: Seq<OfflineRewardBag>) -> bool {
    if e.status == LiveRewardStatus::Pending {
        packaged_event(n, e, bags[bag_of_cycle(bags, e.cycle_id@)].bag_id@)
    } else {
        n == e
    }
}

pub proof fn lemma_unit_sum_bounds(s: Seq<LiveRewardEvent>, a: int)
    requires
        0 <= a <= s.len(),
    ensures
        0 <= unit_sum(s.take(a)).0 <= unit_sum(s).0,
        0 <= unit_sum(s.take(a)).1 <= unit_sum(s).1,
        0 <= unit_sum(s.take(a)).2 <= unit_sum(s).2,
    decreases s.len(),
{
    if s.len() > 0 {
        let s2 = s.drop_last();
        if a < s.len() {
            assert(s.take(a) == s2.take(a));
            lemma_unit_sum_bounds(s2, a);
        } else {
            assert(s.take(a) == s);
            lemma_unit_sum_bounds(s2, 0);
            assert(s2.take(0) == s.take(0));
        }
    } else {
        assert(s.take(a) == s);
    }
}

pub proof fn lemma_values_in_range_prefix(s: Seq<LiveRewardEvent>, a: int)
    requires
        0 <= a <= s.len(),
        values_in_range(s),
    ensures
        values_in_range(s.take(a)),
    decreases s.len(),
{
    if a < s.len() {
        let s2 = s.drop_last();
        assert(s.take(a) == s2.take(a));
        lemma_values_in_range_prefix(s2, a);
    } else {
        assert(s.take(a) == s);
    }
}

/// In ids kept in strict text order, the first `count_before(r, x)` come before `x` and,
/// for an `x` not among them, `x` comes before all the others.
pub proof fn lemma_count_before_split(r: Seq<Seq<char>>, x: Seq<char>)
    requires
        forall|a: int, b: int| 0 <= a < b < r.len() ==> text_lt(#[trigger] r[a], #[trigger] r[b]),
        !r.contains(x),
    ensures
        count_before(r, x) <= r.len(),
        forall|k: int| 0 <= k < count_before(r, x) ==> text_lt(#[trigger] r[k], x),
        forall|k: int| count_before(r, x) <= k < r.len() ==> text_lt(x, #[trigger] r[k]),
    decreases r.len(),
{
    lemma_count_before_len(r, x);
    if r.len() > 0 {
        let r2 = r.drop_last();
        let l = r.last();
        assert forall|a: int, b: int| 0 <= a < b < r2.len() implies text_lt(#[trigger] r2[a], #[trigger] r2[b]) by {
            assert(r2[a] == r[a] && r2[b] == r[b]);
        }
        assert(!r2.contains(x)) by {
            if r2.contains(x) {
                let k = choose|k: int| 0 <= k < r2.len() && r2[k] == x;
                assert(r[k] == x);
            }
        }
        lemma_count_before_split(r2, x);
        let p2 = count_before(r2, x);
        assert(r[r.len() - 1] == l);
        lemma_text_lt_strict_total(l, x, x);
        if text_lt(l, x) {
            assert(p2 == r2.len()) by {
                if p2 < r2.len() {
                    assert(text_lt(x, r2[p2 as int]));
                    assert(text_lt(r[p2 as int], r[r.len() - 1]));
                    lemma_text_lt_strict_total(x, r2[p2 as int], l);
                    lemma_text_lt_strict_total(l, x, x);
                }
            }
            assert forall|k: int| 0 <= k < count_before(r, x) implies text_lt(#[trigger] r[k], x) by {
                if k < r2.len() {
                    assert(r[k] == r2[k]);
                }
            }
        } else {
            assert(l != x);
            lemma_text_lt_strict_total(x, l, l);
            assert forall|k: int| 0 <= k < count_before(r, x) implies text_lt(#[trigger] r[k], x) by {
                assert(r[k] == r2[k]);
            }
            assert forall|k: int| count_before(r, x) <= k < r.len() implies text_lt(x, #[trigger] r[k]) by {
                if k < r2.len() {
                    assert(r[k] == r2[k]);
                }
            }
        }
    }
}

/// The cycles with pending events are in strict text order of their ids.
pub proof fn lemma_pending_cycles_sorted(s: Seq<LiveRewardEvent>)
    ensures
        forall|a: int, b: int|
            0 <= a < b < pending_cycles(s).len() ==> text_lt(
                #[trigger] pending_cycles(s)[a],
                #[trigger] pending_cycles(s)[b],
            ),
    decreases s.len(),
{
    if s.len() > 0 {
        let s2 = s.drop_last();
        lemma_pending_cycles_sorted(s2);
        let r = pending_cycles(s2);
        let e = s.last();
        if e.status == LiveRewardStatus::Pending && !r.contains(e.cycle_id@) {
            let x = e.cycle_id@;
            lemma_count_before_split(r, x);
            let p = count_before(r, x) as int;
            let t = pending_cycles(s);
            assert(t == r.insert(p, x));
            assert forall|a: int, b: int| 0 <= a < b < t.len() implies text_lt(#[trigger] t[a], #[trigger] t[b]) by {
                if a == p {
                    assert(t[b] == r[b - 1]);
                } else if b == p {
                    assert(t[a] == r[a]);
                } else {
                    let a2 = if a < p { a } else { a - 1 };
                    let b2 = if b < p { b } else { b - 1 };
                    assert(t[a] == r[a2]);
                    assert(t[b] == r[b2]);
                }
            }
        }
    }
}

pub proof fn lemma_pending_cycles_facts(s: Seq<LiveRewardEvent>)
    ensures
        forall|a: int, b: int|
            0 <= a < b < pending_cycles(s).len() ==> #[trigger] pending_cycles(s)[a] != #[trigger] pending_cycles(
                s,
            )[b],
        forall|j: int|
            0 <= j < s.len() && (#[trigger] s[j]).status == LiveRewardStatus::Pending ==> pending_cycles(
                s,
            ).contains(s[j].cycle_id@),
    decreases s.len(),
{
    if s.len() > 0 {
        let s2 = s.drop_last();
        lemma_pending_cycles_facts(s2);
        let r = pending_cycles(s2);
        let e = s.last();
        let p = count_before(r, e.cycle_id@) as int;
        lemma_count_before_len(r, e.cycle_id@);
        let grows = e.status == LiveRewardStatus::Pending && !r.contains(e.cycle_id@);
        assert forall|j: int|
            0 <= j < s.len() && (#[trigger] s[j]).status == LiveRewardStatus::Pending implies pending_cycles(
                s,
            ).contains(s[j].cycle_id@) by {
            if j < s.len() - 1 {
                assert(s2[j] == s[j]);
                assert(r.contains(s[j].cycle_id@));
                let k = choose|k: int| 0 <= k < r.len() && r[k] == s[j].cycle_id@;
                if grows {
                    if k < p {
                        assert(pending_cycles(s)[k] == r[k]);
                    } else {
                        assert(pending_cycles(s)[k + 1] == r[k]);
                    }
                } else {
                    assert(pending_cycles(s)[k] == r[k]);
                }
            } else {
                if grows {
                    assert(pending_cycles(s)[p] == s[j].cycle_id@);
                }
            }
        }
        if grows {
            let t = pending_cycles(s);
            assert forall|a: int, b: int| 0 <= a < b < t.len() implies #[trigger] t[a] != #[trigger] t[b] by {
                if a == p {
                    assert(t[b] == r[b - 1]);
                } else if b == p {
                    assert(t[a] == r[a]);
                } else {
                    let a2 = if a < p { a } else { a - 1 };
                    let b2 = if b < p { b } else { b - 1 };
                    assert(t[a] == r[a2]);
                    assert(t[b] == r[b2]);
                }
            }
        }
    }
}

/// Lookups in events that keep each id in place and change each event as `after_packaging`
/// says.
pub proof fn lemma_events_after_packaging(
    new: Seq<LiveRewardEvent>,
    old: Seq<LiveRewardEvent>,
    bags: Seq<OfflineRewardBag>,
)
    requires
        events_unique(old),
        events_unique(new),
        new.len() == old.len(),
        forall|j: int| 0 <= j < old.len() ==> after_packaging(#[trigger] new[j], old[j], bags),
        forall|j: int| 0 <= j < old.len() ==> (#[trigger] new[j]).event_id == old[j].event_id,
    ensures
        forall|id: Seq<char>|
            match #[trigger] event_lookup(old, id) {
                None => event_lookup(new, id) is None,
                Some(e) => event_lookup(new, id) is Some && after_packaging(
                    event_lookup(new, id).unwrap(),
                    e,
                    bags,
                ),
            },
{
    assert forall|id: Seq<char>|
        match #[trigger] event_lookup(old, id) {
            None => event_lookup(new, id) is None,
            Some(e) => event_lookup(new, id) is Some && after_packaging(
                event_lookup(new, id).unwrap(),
                e,
                bags,
            ),
        } by {
        if exists|j: int| 0 <= j < old.len() && (#[trigger] old[j]).event_id@ == id {
            let j = choose|j: int| 0 <= j < old.len() && (#[trigger] old[j]).event_id@ == id;
            lemma_event_hit(old, j, id);
            assert(new[j].event_id == old[j].event_id);
            lemma_event_hit(new, j, id);
            assert(after_packaging(new[j], old[j], bags));
        } else {
            assert forall|j: int| 0 <= j < new.len() implies (#[trigger] new[j]).event_id@ != id by {
                assert(new[j].event_id == old[j].event_id);
            }
        }
    }
}

/// Filtering items none of which has the bag id leaves nothing.
pub proof fn lemma_filter_none(items: Seq<OfflineRewardBagItem>, bag_id: Seq<char>)
    requires
        forall|k: int| 0 <= k < items.len() ==> (#[trigger] items[k]).bag_id@ != bag_id,
    ensures
        bag_items_of(items, bag_id) == Seq::<OfflineRewardBagItem>::empty(),
    decreases items.len(),
{
    reveal(Seq::filter);
    if items.len() > 0 {
        let i2 = items.drop_last();
        assert forall|k: int| 0 <= k < i2.len() implies (#[trigger] i2[k]).bag_id@ != bag_id by {
            assert(i2[k] == items[k]);
        }
        lemma_filter_none(i2, bag_id);
        assert(items.last().bag_id@ != bag_id);
    }
}

/// The view of an optional text.
pub open spec fn opt_text(o: Option<&str>) -> Option<Seq<char>> {
    match o {
        Some(s) => Some(s@),
        None => None,
    }
}

/// The exact values of ledger entries, added up from zero as `Decimal` adds them.
pub open spec fn ledger_value_sum(s: Seq<CollectionLedgerEntry>) -> (int, nat)
    decreases s.len(),
{
    if s.len() == 0 {
        (0, 0)
    } else {
        decimal_sum(ledger_value_sum(s.drop_last()), s.last().exact_value@)
    }
}

/// Every partial sum of the ledger entries' exact values stays inside the decimal range.
pub open spec fn ledger_values_in_range(s: Seq<CollectionLedgerEntry>) -> bool
    decreases s.len(),
{
    s.len() == 0 || (ledger_values_in_range(s.drop_last()) && sum_within_range(
        ledger_value_sum(s.drop_last()),
        s.last().exact_value@,
    ))
}

/// The text has an ASCII letter, digit or underscore.
pub open spec fn has_word_char(s: Seq<char>) -> bool {
    exists|i: int| 0 <= i < s.len() && is_word_char(#[trigger] s[i])
}

/// A setting key is blank when it is empty or all whitespace.
pub open spec fn key_is_blank(key: Seq<char>) -> bool {
    forall|i: int| 0 <= i < key.len() ==> spec_char_is_whitespace(#[trigger] key[i])
}

pub proof fn lemma_ledger_sums_bounds(s: Seq<CollectionLedgerEntry>, a: int)
    requires
        0 <= a <= s.len(),
    ensures
        0 <= ledger_count_sums(s.take(a)).0 <= ledger_count_sums(s).0,
        0 <= ledger_count_sums(s.take(a)).1 <= ledger_count_sums(s).1,
        0 <= ledger_count_sums(s.take(a)).2 <= ledger_count_sums(s).2,
    decreases s.len(),
{
    if s.len() > 0 {
        let s2 = s.drop_last();
        if a < s.len() {
            assert(s.take(a) == s2.take(a));
            lemma_ledger_sums_bounds(s2, a);
        } else {
            assert(s.take(a) == s);
            lemma_ledger_sums_bounds(s2, 0);
            assert(s2.take(0) == s.take(0));
        }
    } else {
        assert(s.take(a) == s);
    }
}

pub proof fn lemma_ledger_values_prefix(s: Seq<CollectionLedgerEntry>, a: int)
    requires
        0 <= a <= s.len(),
        ledger_values_in_range(s),
    ensures
        ledger_values_in_range(s.take(a)),
    decreases s.len(),
{
    if a < s.len() {
        let s2 = s.drop_last();
        assert(s.take(a) == s2.take(a));
        lemma_ledger_values_prefix(s2, a);
    } else {
        assert(s.take(a) == s);
    }
}

/// Keeping every ledger entry keeps the ledger.
pub proof fn lemma_filter_all(s: Seq<CollectionLedgerEntry>)
    ensures
        ledger_of(s, None) == s,
    decreases s.len(),
{
    reveal(Seq::filter);
    if s.len() > 0 {
        lemma_filter_all(s.drop_last());
        assert(s.drop_last().push(s.last()) == s);
    }
}

pub proof fn lemma_setting_update(s: Seq<(String, String, Instant)>, i: int, x: (String, String, Instant))
    requires
        settings_unique(s),
        settings_unique(s.update(i, x)),
        0 <= i < s.len(),
        s[i].0@ == x.0@,
    ensures
        forall|k: Seq<char>|
            #[trigger] setting_lookup(s.update(i, x), k) == if k == x.0@ {
                Some(x.1@)
            } else {
                setting_lookup(s, k)
            },
{
    let s1 = s.update(i, x);
    assert forall|k: Seq<char>|
        #[trigger] setting_lookup(s1, k) == if k == x.0@ {
            Some(x.1@)
        } else {
            setting_lookup(s, k)
        } by {
        if k == x.0@ {
            lemma_setting_hit(s1, i, k);
        } else if exists|j: int| 0 <= j < s.len() && (#[trigger] s[j]).0@ == k {
            let j = choose|j: int| 0 <= j < s.len() && (#[trigger] s[j]).0@ == k;
            lemma_setting_hit(s, j, k);
            lemma_setting_hit(s1, j, k);
        } else {
            assert forall|j: int| 0 <= j < s1.len() implies (#[trigger] s1[j]).0@ != k by {
                if j != i {
                    assert(s1[j] == s[j]);
                }
            }
        }
    }
}

pub proof fn lemma_setting_push(s: Seq<(String, String, Instant)>, x: (String, String, Instant))
    requires
        settings_unique(s),
        settings_unique(s.push(x)),
    ensures
        forall|k: Seq<char>|
            #[trigger] setting_lookup(s.push(x), k) == if k == x.0@ {
                Some(x.1@)
            } else {
                setting_lookup(s, k)
            },
{
    let s1 = s.push(x);
    assert forall|k: Seq<char>|
        #[trigger] setting_lookup(s1, k) == if k == x.0@ {
            Some(x.1@)
        } else {
            setting_lookup(s, k)
        } by {
        if k == x.0@ {
            lemma_setting_hit(s1, s.len() as int, k);
        } else if exists|j: int| 0 <= j < s.len() && (#[trigger] s[j]).0@ == k {
            let j = choose|j: int| 0 <= j < s.len() && (#[trigger] s[j]).0@ == k;
            lemma_setting_hit(s, j, k);
            lemma_setting_hit(s1, j, k);
        } else {
            assert forall|j: int| 0 <= j < s1.len() implies (#[trigger] s1[j]).0@ != k by {
                if j < s.len() {
                    assert(s1[j] == s[j]);
                }
            }
        }
    }
}

pub proof fn lemma_setting_hit(s: Seq<(String, String, Instant)>, i: int, k: Seq<char>)
    requires
        settings_unique(s),
        0 <= i < s.len(),
        s[i].0@ == k,
    ensures
        setting_lookup(s, k) == Some(s[i].1@),
{
    let j = choose|j: int| 0 <= j < s.len() && (#[trigger] s[j]).0@ == k;
    assert(0 <= j < s.len() && s[j].0@ == k);
    if j < i {
        assert(s[j].0@ != s[i].0@);
    } else if j > i {
        assert(s[i].0@ != s[j].0@);
    }
}

// ---------------------------------------------------------------------------------------
// Frozen payroll cycles
// ---------------------------------------------------------------------------------------

/// The record `r` holds the payroll snapshot of `cycle` under `cycle_id`: amounts are
/// compared as numbers, as `Decimal` compares them.
pub open spec fn record_matches_cycle(r: PayrollCycleRecord, cycle_id: Seq<char>, cycle: PayrollCycle) -> bool {
    let rates = cycle.pay_rates_spec();
    let silver = decimal_quotient(rates.1, (WEIGHTED_UNITS_PER_HOUR as int, 0nat));
    &&& r.cycle_id@ == cycle_id
    &&& r.salary_month@ == cycle.salary_month@
    &&& r.start_date@ == cycle.start_date@
    &&& r.end_date@ == cycle.end_date@
    &&& money_value_eq(r.monthly_salary@, cycle.monthly_salary@)
    &&& r.workday_count == cycle.workday_count
    &&& money_value_eq(r.daily_pay@, rates.0)
    &&& money_value_eq(r.hourly_pay@, rates.1)
    &&& money_value_eq(r.per_second_pay@, rates.2)
    &&& money_value_eq(r.silver_value@, silver)
    &&& money_value_eq(r.gold_value@, decimal_product(silver, (GOLD_WEIGHT as int, 0nat)))
    &&& money_value_eq(r.diamond_value@, decimal_product(silver, (DIAMOND_WEIGHT as int, 0nat)))
    &&& r.timezone@ == cycle.timezone@
    &&& r.calendar_version@ == cycle.calendar_version@
}

/// The record `r` is the snapshot of `cycle` under `cycle_id`, frozen at `at`, with exactly
/// the amounts the cycle derives.
pub open spec fn record_of_cycle(r: PayrollCycleRecord, cycle_id: Seq<char>, cycle: PayrollCycle, at: Instant) -> bool {
    let rates = cycle.pay_rates_spec();
    let silver = decimal_quotient(rates.1, (WEIGHTED_UNITS_PER_HOUR as int, 0nat));
    &&& r.cycle_id@ == cycle_id
    &&& r.salary_month == cycle.salary_month
    &&& r.start_date == cycle.start_date
    &&& r.end_date == cycle.end_date
    &&& r.monthly_salary == cycle.monthly_salary
    &&& r.workday_count == cycle.workday_count
    &&& (r.daily_pay@, r.hourly_pay@, r.per_second_pay@) == rates
    &&& r.silver_value@ == silver
    &&& r.gold_value@ == decimal_product(silver, (GOLD_WEIGHT as int, 0nat))
    &&& r.diamond_value@ == decimal_product(silver, (DIAMOND_WEIGHT as int, 0nat))
    &&& r.timezone@ == cycle.timezone@
    &&& r.calendar_version@ == cycle.calendar_version@
    &&& r.created_at == at
}

pub proof fn lemma_cycle_hit(s: Seq<PayrollCycleRecord>, i: int, id: Seq<char>)
    requires
        cycles_unique(s),
        0 <= i < s.len(),
        s[i].cycle_id@ == id,
    ensures
        cycle_lookup(s, id) == Some(s[i]),
{
    let k = choose|k: int| 0 <= k < s.len() && (#[trigger] s[k]).cycle_id@ == id;
    assert(0 <= k < s.len() && s[k].cycle_id@ == id);
    if k < i {
        assert(s[k].cycle_id@ != s[i].cycle_id@);
    } else if k > i {
        assert(s[i].cycle_id@ != s[k].cycle_id@);
    }
}

// ---------------------------------------------------------------------------------------
// Removing an unconfigured cycle
// ---------------------------------------------------------------------------------------

/// The cycle records of other cycles.
pub open spec fn cycles_kept(s: Seq<PayrollCycleRecord>, c: Seq<char>) -> Seq<PayrollCycleRecord> {
    s.filter(|r: PayrollCycleRecord| r.cycle_id@ != c)
}

/// The daily rows of other cycles.
pub open spec fn daily_kept(s: Seq<DailyRewardState>, c: Seq<char>) -> Seq<DailyRewardState> {
    s.filter(|r: DailyRewardState| r.cycle_id@ != c)
}

/// The bags of other cycles.
pub open spec fn bags_kept(s: Seq<OfflineRewardBag>, c: Seq<char>) -> Seq<OfflineRewardBag> {
    s.filter(|r: OfflineRewardBag| r.cycle_id@ != c)
}

/// The live events of other cycles.
pub open spec fn events_kept(s: Seq<LiveRewardEvent>, c: Seq<char>) -> Seq<LiveRewardEvent> {
    s.filter(|r: LiveRewardEvent| r.cycle_id@ != c)
}

/// The ledger entries of other cycles.
pub open spec fn ledger_kept(s: Seq<CollectionLedgerEntry>, c: Seq<char>) -> Seq<CollectionLedgerEntry> {
    s.filter(|r: CollectionLedgerEntry| r.cycle_id@ != c)
}

/// The item belongs to a bag of the cycle.
pub open spec fn item_of_cycle(bags: Seq<OfflineRewardBag>, it: OfflineRewardBagItem, c: Seq<char>) -> bool {
    bag_lookup(bags, it.bag_id@) matches Some(b) && b.cycle_id@ == c
}

/// The bag items that do not belong to a bag of the cycle.
pub open spec fn items_kept(s: Seq<OfflineRewardBagItem>, bags: Seq<OfflineRewardBag>, c: Seq<char>) -> Seq<
    OfflineRewardBagItem,
> {
    s.filter(|it: OfflineRewardBagItem| !item_of_cycle(bags, it, c))
}

/// What reconciling offline entitlements does to the ledger and returns.
pub open spec fn reconcile_outcome(old: LedgerStore, new: LedgerStore, cycle_id: Seq<char>, period_start: Instant, period_end: Instant, ents: Seq<(Date, RewardCounts)>, values: RewardValues, created_at: Instant, res: Result<Option<OfflineRewardBag>, PersistenceError>) -> bool {
                let old_daily = old.daily_view();
                let gaps = gap_items(old_daily, cycle_id, ents);
                let total = gap_total(old_daily, cycle_id, ents);
                match res {
                    Ok(None) => {
                        &&& gaps.len() == 0
                        &&& daily_reconciled(new.daily_view(), old_daily, cycle_id, ents, created_at)
                        &&& new.same_rows_but_daily(old)
                    },
                    Ok(Some(bag)) => {
                        &&& gaps.len() > 0
                        &&& daily_reconciled(new.daily_view(), old_daily, cycle_id, ents, created_at)
                        &&& bag.cycle_id@ == cycle_id
                        &&& bag.period_start == period_start
                        &&& bag.period_end == period_end
                        &&& bag.counts.spec_triple() == total
                        &&& bag.exact_value@ == values.total_value_spec(bag.counts)
                        &&& bag.created_at == created_at
                        &&& !bag.claimed
                        &&& bag.claimed_at is None
                        &&& bag_lookup(old.bags_view(), bag.bag_id@) is None
                        &&& forall|id: Seq<char>|
                            #[trigger] bag_lookup(new.bags_view(), id) == if id == bag.bag_id@ {
                                Some(bag)
                            } else {
                                bag_lookup(old.bags_view(), id)
                            }
                        &&& new.items_view().subrange(0, old.items_view().len() as int)
                            == old.items_view()
                        &&& items_match(
                            new.items_view().skip(old.items_view().len() as int),
                            bag.bag_id@,
                            gaps,
                        )
                        &&& new.cycles_view() == old.cycles_view()
                        &&& new.settings_view() == old.settings_view()
                        &&& new.ledger_view() == old.ledger_view()
                        &&& new.events_view() == old.events_view()
                    },
                    Err(e) => {
                        &&& new.unchanged_from(old)
                        &&& gaps.len() > 0
                        &&& (e == PersistenceError::CountOutOfRange ==> !triple_fits_i64(total))
                        &&& (e == PersistenceError::ValueOutOfRange ==> triple_fits_u64(total)
                            && !values.total_value_in_range(counts_from_triple(total)))
                        &&& (e matches PersistenceError::DuplicateId(id) ==> bag_lookup(
                            old.bags_view(),
                            id@,
                        ) is Some)
                        &&& (e == PersistenceError::CountOutOfRange || e == PersistenceError::ValueOutOfRange
                            || e is DuplicateId)
                    },
                }
            }

/// What claiming an offline bag does to the ledger and returns.
pub open spec fn claim_outcome(old: LedgerStore, new: LedgerStore, bag_id: Seq<char>, claimed_at: Instant, res: Result<CollectionLedgerEntry, PersistenceError>) -> bool {
                let found = bag_lookup(old.bags_view(), bag_id);
                let writes = claim_writes(
                    old.daily_view(),
                    found.unwrap().cycle_id@,
                    bag_items_of(old.items_view(), bag_id),
                    claimed_at,
                );
                match res {
                    Ok(entry) => {
                        &&& found is Some
                        &&& !found.unwrap().claimed
                        &&& writes is Some
                        &&& entry_for(
                            entry,
                            found.unwrap().cycle_id@,
                            "OFFLINE_BAG_CLAIM"@,
                            bag_id,
                            found.unwrap().counts,
                            found.unwrap().exact_value,
                            claimed_at,
                        )
                        &&& forall|id: Seq<char>|
                            #[trigger] bag_lookup(new.bags_view(), id) == if id == bag_id {
                                Some(claimed_bag(found.unwrap(), claimed_at))
                            } else {
                                bag_lookup(old.bags_view(), id)
                            }
                        &&& forall|c: Seq<char>, d: int|
                            #[trigger] daily_lookup(new.daily_view(), c, d) == daily_after_writes(
                                old.daily_view(),
                                writes.unwrap(),
                                c,
                                d,
                            )
                        &&& ledger_lookup(old.ledger_view(), entry.transaction_id@) is None
                        &&& exists|p: int|
                            0 <= p <= old.ledger_view().len() && new.ledger_view() == old.ledger_view().insert(p, entry)
                        &&& new.cycles_view() == old.cycles_view()
                        &&& new.settings_view() == old.settings_view()
                        &&& new.items_view() == old.items_view()
                        &&& new.events_view() == old.events_view()
                    },
                    Err(e) => {
                        &&& new.unchanged_from(old)
                        &&& (found is None <==> e is BagNotFound)
                        &&& (e matches PersistenceError::BagNotFound(id) ==> id@ == bag_id)
                        &&& (e matches PersistenceError::BagAlreadyClaimed(id) ==> id@ == bag_id)
                        &&& (found matches Some(b) && b.claimed ==> e is BagAlreadyClaimed)
                        &&& (found matches Some(b) && !b.claimed && writes is None ==> e is InvariantViolation)
                        &&& (e is InvariantViolation ==> writes is None)
                        &&& (e is CountOutOfRange ==> found is Some && !triple_fits_i64(found.unwrap().counts.spec_triple()))
                        &&& (e matches PersistenceError::DuplicateId(id) ==> ledger_lookup(old.ledger_view(), id@) is Some)
                        &&& (found matches Some(b) && !b.claimed && writes is Some && triple_fits_i64(b.counts.spec_triple())
                            ==> e is DuplicateId)
                    },
                }
            }

/// What collecting a live event does to the ledger and returns.
pub open spec fn collect_outcome(old: LedgerStore, new: LedgerStore, event_id: Seq<char>, collected_at: Instant, res: Result<CollectionLedgerEntry, PersistenceError>) -> bool {
                let found = event_lookup(old.events_view(), event_id);
                let ev = found.unwrap();
                let row = daily_lookup(old.daily_view(), ev.cycle_id@, ev.work_date@);
                let collected = collect_into(row.unwrap(), unit_counts(ev.reward_type), collected_at);
                match res {
                    Ok(entry) => {
                        &&& found is Some
                        &&& ev.status == LiveRewardStatus::Pending
                        &&& row is Some
                        &&& collected is Some
                        &&& entry_for(
                            entry,
                            ev.cycle_id@,
                            "LIVE_REWARD_COLLECTION"@,
                            event_id,
                            unit_counts(ev.reward_type),
                            ev.exact_value,
                            collected_at,
                        )
                        &&& forall|id: Seq<char>|
                            #[trigger] event_lookup(new.events_view(), id) == if id == event_id {
                                Some(collected_event(ev, collected_at))
                            } else {
                                event_lookup(old.events_view(), id)
                            }
                        &&& forall|c: Seq<char>, d: int|
                            #[trigger] daily_lookup(new.daily_view(), c, d) == if c == ev.cycle_id@
                                && d == ev.work_date@ {
                                collected
                            } else {
                                daily_lookup(old.daily_view(), c, d)
                            }
                        &&& ledger_lookup(old.ledger_view(), entry.transaction_id@) is None
                        &&& exists|p: int|
                            0 <= p <= old.ledger_view().len() && new.ledger_view() == old.ledger_view().insert(p, entry)
                        &&& new.cycles_view() == old.cycles_view()
                        &&& new.settings_view() == old.settings_view()
                        &&& new.bags_view() == old.bags_view()
                        &&& new.items_view() == old.items_view()
                    },
                    Err(e) => {
                        &&& new.unchanged_from(old)
                        &&& (found is None <==> e is LiveRewardNotFound)
                        &&& (e matches PersistenceError::LiveRewardNotFound(id) ==> id@ == event_id)
                        &&& (found is Some && ev.status != LiveRewardStatus::Pending <==> e is LiveRewardAlreadySettled)
                        &&& (e matches PersistenceError::LiveRewardAlreadySettled { event_id: id, status }
                            ==> id@ == event_id && status@ == ev.status.code_spec())
                        &&& (e is InvariantViolation <==> found is Some && ev.status == LiveRewardStatus::Pending
                            && (row is None || collected is None))
                        &&& (e matches PersistenceError::DuplicateId(id) ==> ledger_lookup(old.ledger_view(), id@) is Some)
                        &&& (e is LiveRewardNotFound || e is LiveRewardAlreadySettled || e is InvariantViolation
                            || e is DuplicateId)
                    },
                }
            }

/// What materializing live events does to the ledger and returns.
pub open spec fn materialize_outcome(old: LedgerStore, new: LedgerStore, cycle_id: Seq<char>, work_date: Date, entitled: RewardCounts, values: RewardValues, pending_cap: u64, created_at: Instant, res: Result<Vec<LiveRewardEvent>, PersistenceError>) -> bool {
                let o = daily_lookup(old.daily_view(), cycle_id, work_date@);
                let acc = accounted_of(o);
                let a = acc.spec_total();
                let k = materialize_count(
                    old.events_view(),
                    cycle_id,
                    a,
                    entitled.spec_total(),
                    pending_cap as int,
                );
                match res {
                    Ok(list) => {
                        &&& is_event_prefix(acc)
                        &&& event_ids_free(old.events_view(), cycle_id, work_date@, a, k)
                        &&& list@ == pending_of(new.events_view(), cycle_id)
                        &&& daily_lookup(new.daily_view(), cycle_id, work_date@) is Some
                        &&& materialized_row(
                            daily_lookup(new.daily_view(), cycle_id, work_date@).unwrap(),
                            o,
                            cycle_id,
                            work_date@,
                            entitled,
                            created_at,
                            k,
                        )
                        &&& forall|c: Seq<char>, d: int|
                            !(c == cycle_id && d == work_date@) ==> #[trigger] daily_lookup(
                                new.daily_view(),
                                c,
                                d,
                            ) == daily_lookup(old.daily_view(), c, d)
                        &&& forall|j: int|
                            1 <= j <= k ==> (#[trigger] event_lookup(
                                new.events_view(),
                                event_id_text(cycle_id, work_date@, a + j),
                            )) is Some && fresh_event(
                                event_lookup(
                                    new.events_view(),
                                    event_id_text(cycle_id, work_date@, a + j),
                                ).unwrap(),
                                cycle_id,
                                work_date@,
                                a + j,
                                values,
                                created_at,
                            )
                        &&& forall|id: Seq<char>|
                            (forall|j: int| 1 <= j <= k ==> id != #[trigger] event_id_text(cycle_id, work_date@, a + j))
                                ==> #[trigger] event_lookup(new.events_view(), id) == event_lookup(
                                old.events_view(),
                                id,
                            )
                        &&& new.events_view().len() == old.events_view().len() + k
                        &&& count_pending_of(new.events_view(), cycle_id) == count_pending_of(
                            old.events_view(),
                            cycle_id,
                        ) + k
                        &&& k == 0 ==> new.events_view() == old.events_view()
                        &&& new.cycles_view() == old.cycles_view()
                        &&& new.settings_view() == old.settings_view()
                        &&& new.bags_view() == old.bags_view()
                        &&& new.items_view() == old.items_view()
                        &&& new.ledger_view() == old.ledger_view()
                    },
                    Err(e) => {
                        &&& new.unchanged_from(old)
                        &&& e is InvariantViolation
                        &&& (!is_event_prefix(acc) || !event_ids_free(
                            old.events_view(),
                            cycle_id,
                            work_date@,
                            a,
                            k,
                        ))
                    },
                }
            }

/// What packaging the pending live events does to the ledger and returns.
pub open spec fn package_outcome(old: LedgerStore, new: LedgerStore, packaged_at: Instant, res: Result<Vec<OfflineRewardBag>, PersistenceError>) -> bool {
                let old_events = old.events_view();
                let cycles = pending_cycles(old_events);
                match res {
                    Ok(bags) => {
                        &&& bags@.len() == cycles.len()
                        &&& forall|i: int|
                            0 <= i < bags@.len() ==> package_bag(
                                #[trigger] bags@[i],
                                cycles[i],
                                pending_of(old_events, cycles[i]),
                                packaged_at,
                            )
                        &&& bags_unique(bags@)
                        &&& forall|i: int|
                            0 <= i < bags@.len() ==> bag_lookup(old.bags_view(), (#[trigger] bags@[i]).bag_id@)
                                is None && bag_lookup(new.bags_view(), bags@[i].bag_id@) == Some(bags@[i])
                        &&& forall|id: Seq<char>|
                            (forall|i: int| 0 <= i < bags@.len() ==> (#[trigger] bags@[i]).bag_id@ != id)
                                ==> #[trigger] bag_lookup(new.bags_view(), id) == bag_lookup(
                                old.bags_view(),
                                id,
                            )
                        &&& new.bags_view().len() == old.bags_view().len() + bags@.len()
                        &&& new.items_view().subrange(0, old.items_view().len() as int)
                            == old.items_view()
                        &&& forall|i: int|
                            0 <= i < bags@.len() ==> bag_items_of(
                                new.items_view().skip(old.items_view().len() as int),
                                (#[trigger] bags@[i]).bag_id@,
                            ).map_values(|it: OfflineRewardBagItem| (it.work_date@, it.counts.spec_triple()))
                                == date_groups(pending_of(old_events, cycles[i]))
                        &&& forall|id: Seq<char>|
                            match #[trigger] event_lookup(old_events, id) {
                                None => event_lookup(new.events_view(), id) is None,
                                Some(e) => event_lookup(new.events_view(), id) is Some && after_packaging(
                                    event_lookup(new.events_view(), id).unwrap(),
                                    e,
                                    bags@,
                                ),
                            }
                        &&& forall|j: int|
                            0 <= j < new.events_view().len() ==> (#[trigger] new.events_view()[j]).status
                                != LiveRewardStatus::Pending
                        &&& new.events_view().len() == old_events.len()
                        &&& new.cycles_view() == old.cycles_view()
                        &&& new.settings_view() == old.settings_view()
                        &&& new.daily_view() == old.daily_view()
                        &&& new.ledger_view() == old.ledger_view()
                    },
                    Err(e) => {
                        &&& new.unchanged_from(old)
                        &&& cycles.len() > 0
                        &&& (e is CountOutOfRange || e is ValueOutOfRange || e is DuplicateId)
                        &&& (e is CountOutOfRange ==> exists|i: int|
                            0 <= i < cycles.len() && !triple_fits_i64(unit_sum(pending_of(old_events, #[trigger] cycles[i]))))
                        &&& (e is ValueOutOfRange ==> exists|i: int|
                            0 <= i < cycles.len() && !values_in_range(pending_of(old_events, #[trigger] cycles[i])))
                    },
                }
            }

/// The pending events of one cycle can be packaged: their counts fit the database's
/// integers and their values add up inside the decimal range.
pub open spec fn cycle_packable(p: Seq<LiveRewardEvent>) -> bool {
    triple_fits_i64(unit_sum(p)) && values_in_range(p)
}

/// The ids are free: none names a bag of the ledger and none repeats.
pub open spec fn ids_fresh(bags: Seq<OfflineRewardBag>, ids: Seq<Seq<char>>) -> bool {
    forall|i: int|
        0 <= i < ids.len() ==> bag_lookup(bags, #[trigger] ids[i]) is None && forall|j: int|
            0 <= j < i ==> ids[j] != ids[i]
}

/// Packaging with the bag ids `ids`, one per cycle with pending events: what
/// `package_outcome` says, and it succeeds exactly when every cycle can be packaged and the
/// ids are free, each bag under its cycle's id; a refused id names a bag or repeats one.
pub open spec fn packaged_with_ids(
    old: LedgerStore,
    new: LedgerStore,
    ids: Seq<Seq<char>>,
    packaged_at: Instant,
    res: Result<Vec<OfflineRewardBag>, PersistenceError>,
) -> bool {
    let cycles = pending_cycles(old.events_view());
    let packable = forall|i: int| 0 <= i < cycles.len() ==> cycle_packable(pending_of(old.events_view(), #[trigger] cycles[i]));
    &&& ids.len() == cycles.len()
    &&& package_outcome(old, new, packaged_at, res)
    &&& (packable && ids_fresh(old.bags_view(), ids) ==> res is Ok)
    &&& (res is Ok ==> ids_fresh(old.bags_view(), ids))
    &&& (res matches Ok(bags) ==> forall|i: int| 0 <= i < bags@.len() ==> (#[trigger] bags@[i]).bag_id@ == ids[i])
    &&& (ids_fresh(old.bags_view(), ids) && res is Err ==> res->Err_0 is CountOutOfRange
        || res->Err_0 is ValueOutOfRange)
    &&& (packable && res is Err ==> res->Err_0 is DuplicateId)
    &&& (res matches Err(PersistenceError::DuplicateId(x)) ==> exists|i: int|
        0 <= i < ids.len() && #[trigger] ids[i] == x@ && (bag_lookup(old.bags_view(), x@) is Some || exists|j: int|
            0 <= j < i && ids[j] == x@))
}

/// What freezing (or confirming) a cycle's payroll snapshot does to the ledger and returns.
pub open spec fn ensure_outcome(old: LedgerStore, new: LedgerStore, cycle_id: Seq<char>, cycle: PayrollCycle, created_at: Instant, res: Result<PayrollCycleRecord, PersistenceError>) -> bool {
                let found = cycle_lookup(old.cycles_view(), cycle_id);
                match res {
                    Ok(r) => {
                        &&& !key_is_blank(cycle_id)
                        &&& record_matches_cycle(r, cycle_id, cycle)
                        &&& cycle_lookup(new.cycles_view(), cycle_id) == Some(r)
                        &&& match found {
                            Some(o) => r == o && new.unchanged_from(old),
                            None => {
                                &&& record_of_cycle(r, cycle_id, cycle, created_at)
                                &&& new.cycles_view() == old.cycles_view().push(r)
                                &&& new.same_rows_but_cycles(old)
                            },
                        }
                    },
                    Err(e) => {
                        &&& new.unchanged_from(old)
                        &&& (e == PersistenceError::EmptyCycleId <==> key_is_blank(cycle_id))
                        &&& (e is CycleSnapshotConflict <==> !key_is_blank(cycle_id) && found is Some
                            && !record_matches_cycle(found.unwrap(), cycle_id, cycle))
                        &&& (e matches PersistenceError::CycleSnapshotConflict(id) ==> id@ == cycle_id)
                        &&& (e == PersistenceError::EmptyCycleId || e is CycleSnapshotConflict)
                    },
                }
            }

// ---------------------------------------------------------------------------------------
// The store
// ---------------------------------------------------------------------------------------

/// The reward ledger's rows. Every operation either succeeds as a whole or leaves the
/// ledger unchanged.
pub struct LedgerStore {
    cycles: Vec<PayrollCycleRecord>,
    settings: Vec<(String, String, Instant)>,
    daily: Vec<DailyRewardState>,
    bags: Vec<OfflineRewardBag>,
    bag_items: Vec<OfflineRewardBagItem>,
    ledger: Vec<CollectionLedgerEntry>,
    events: Vec<LiveRewardEvent>,
}

impl LedgerStore {
    pub closed spec fn cycles_view(self) -> Seq<PayrollCycleRecord> {
        self.cycles@
    }

    pub closed spec fn settings_view(self) -> Seq<(String, String, Instant)> {
        self.settings@
    }


    pub closed spec fn daily_view(self) -> Seq<DailyRewardState> {
        self.daily@
    }

    pub closed spec fn bags_view(self) -> Seq<OfflineRewardBag> {
        self.bags@
    }

    pub closed spec fn items_view(self) -> Seq<OfflineRewardBagItem> {
        self.bag_items@
    }

    pub closed spec fn ledger_view(self) -> Seq<CollectionLedgerEntry> {
        self.ledger@
    }

    pub closed spec fn events_view(self) -> Seq<LiveRewardEvent> {
        self.events@
    }

    /// The ledger's invariants: unique keys, ordered rows, and per day
    /// `collected <= accounted <= entitled`.
    pub open spec fn wf(self) -> bool {
        &&& cycles_unique(self.cycles_view())
        &&& forall|i: int| 0 <= i < self.cycles_view().len() ==> (#[trigger] self.cycles_view()[i]).workday_count > 0
        &&& settings_unique(self.settings_view())
        &&& daily_unique(self.daily_view())
        &&& forall|i: int|
            0 <= i < self.daily_view().len() ==> counts_ordered(#[trigger] self.daily_view()[i])
        &&& bags_unique(self.bags_view())
        &&& bags_sorted(self.bags_view())
        &&& events_unique(self.events_view())
        &&& events_sorted(self.events_view())
        &&& ledger_unique(self.ledger_view())
        &&& ledger_sorted(self.ledger_view())
    }

    #[verifier::type_invariant]
    pub open spec fn inv(self) -> bool {
        self.wf()
    }

    /// All rows other than the settings are those of `other`.
    pub open spec fn same_rows_but_settings(self, other: LedgerStore) -> bool {
        &&& self.cycles_view() == other.cycles_view()
        &&& self.daily_view() == other.daily_view()
        &&& self.bags_view() == other.bags_view()
        &&& self.items_view() == other.items_view()
        &&& self.ledger_view() == other.ledger_view()
        &&& self.events_view() == other.events_view()
    }

    /// All rows other than the daily rows are those of `other`.
    pub open spec fn same_rows_but_daily(self, other: LedgerStore) -> bool {
        &&& self.cycles_view() == other.cycles_view()
        &&& self.settings_view() == other.settings_view()
        &&& self.bags_view() == other.bags_view()
        &&& self.items_view() == other.items_view()
        &&& self.ledger_view() == other.ledger_view()
        &&& self.events_view() == other.events_view()
    }

    /// All rows other than the bags are those of `other`.
    pub open spec fn same_rows_but_bags(self, other: LedgerStore) -> bool {
        &&& self.cycles_view() == other.cycles_view()
        &&& self.settings_view() == other.settings_view()
        &&& self.daily_view() == other.daily_view()
        &&& self.items_view() == other.items_view()
        &&& self.ledger_view() == other.ledger_view()
        &&& self.events_view() == other.events_view()
    }

    /// All rows other than the ledger entries are those of `other`.
    pub open spec fn same_rows_but_ledger(self, other: LedgerStore) -> bool {
        &&& self.cycles_view() == other.cycles_view()
        &&& self.settings_view() == other.settings_view()
        &&& self.daily_view() == other.daily_view()
        &&& self.bags_view() == other.bags_view()
        &&& self.items_view() == other.items_view()
        &&& self.events_view() == other.events_view()
    }

    /// All rows other than the live events are those of `other`.
    pub open spec fn same_rows_but_events(self, other: LedgerStore) -> bool {
        &&& self.cycles_view() == other.cycles_view()
        &&& self.settings_view() == other.settings_view()
        &&& self.daily_view() == other.daily_view()
        &&& self.bags_view() == other.bags_view()
        &&& self.items_view() == other.items_view()
        &&& self.ledger_view() == other.ledger_view()
    }

    /// All rows other than the payroll cycles are those of `other`.
    pub open spec fn same_rows_but_cycles(self, other: LedgerStore) -> bool {
        &&& self.settings_view() == other.settings_view()
        &&& self.daily_view() == other.daily_view()
        &&& self.bags_view() == other.bags_view()
        &&& self.items_view() == other.items_view()
        &&& self.ledger_view() == other.ledger_view()
        &&& self.events_view() == other.events_view()
    }

    /// All rows other than the bag items are those of `other`.
    pub open spec fn same_rows_but_items(self, other: LedgerStore) -> bool {
        &&& self.cycles_view() == other.cycles_view()
        &&& self.settings_view() == other.settings_view()
        &&& self.daily_view() == other.daily_view()
        &&& self.bags_view() == other.bags_view()
        &&& self.ledger_view() == other.ledger_view()
        &&& self.events_view() == other.events_view()
    }

    /// Every row is that of `other`.
    pub open spec fn unchanged_from(self, other: LedgerStore) -> bool {
        &&& self.same_rows_but_settings(other)
        &&& self.settings_view() == other.settings_view()
    }
}

/// The value the last pair of `input` with key `key` gives, if any.
pub open spec fn last_value_for(input: Seq<(String, String)>, key: Seq<char>) -> Option<Seq<char>>
    decreases input.len(),
{
    if input.len() == 0 {
        None
    } else if input.last().0@ == key {
        Some(input.last().1@)
    } else {
        last_value_for(input.drop_last(), key)
    }
}

impl LedgerStore {
    /// An empty ledger.
    pub fn new() -> (res: LedgerStore)
        ensures
            res.cycles_view().len() == 0,
            res.settings_view().len() == 0,
            res.daily_view().len() == 0,
            res.bags_view().len() == 0,
            res.items_view().len() == 0,
            res.ledger_view().len() == 0,
            res.events_view().len() == 0,
    {
        LedgerStore {
            cycles: Vec::new(),
            settings: Vec::new(),
            daily: Vec::new(),
            bags: Vec::new(),
            bag_items: Vec::new(),
            ledger: Vec::new(),
            events: Vec::new(),
        }
    }

    fn find_cycle(&self, cycle_id: &str) -> (res: Option<usize>)
        ensures
            res matches Some(i) ==> i < self.cycles@.len() && self.cycles@[i as int].cycle_id@
                == cycle_id@ && cycle_lookup(self.cycles@, cycle_id@) == Some(self.cycles@[i as int]),
            res is None ==> cycle_lookup(self.cycles@, cycle_id@) is None,
    {
        proof {
            use_type_invariant(self);
        }
        let mut i: usize = 0;
        while i < self.cycles.len()
            invariant
                i <= self.cycles@.len(),
                cycles_unique(self.cycles@),
                forall|j: int| 0 <= j < i ==> (#[trigger] self.cycles@[j]).cycle_id@ != cycle_id@,
            decreases self.cycles@.len() - i,
        {
            if text_eq(self.cycles[i].cycle_id.as_str(), cycle_id) {
                proof {
                    let k = choose|k: int|
                        0 <= k < self.cycles@.len() && (#[trigger] self.cycles@[k]).cycle_id@ == cycle_id@;
                    if k != i {
                        if k < i {
                        } else {
                            assert(cycles_unique(self.cycles@));
                            assert(self.cycles@[i as int].cycle_id@ != self.cycles@[k].cycle_id@);
                        }
                    }
                }
                return Some(i);
            }
            i = i + 1;
        }
        None
    }

    fn find_setting(&self, key: &str) -> (res: Option<usize>)
        ensures
            res matches Some(i) ==> i < self.settings@.len() && self.settings@[i as int].0@ == key@
                && setting_lookup(self.settings@, key@) == Some(self.settings@[i as int].1@),
            res is None ==> setting_lookup(self.settings@, key@) is None,
            res is None ==> forall|j: int|
                0 <= j < self.settings@.len() ==> (#[trigger] self.settings@[j]).0@ != key@,
    {
        proof {
            use_type_invariant(self);
        }
        let mut i: usize = 0;
        while i < self.settings.len()
            invariant
                i <= self.settings@.len(),
                settings_unique(self.settings@),
                forall|j: int| 0 <= j < i ==> (#[trigger] self.settings@[j]).0@ != key@,
            decreases self.settings@.len() - i,
        {
            if text_eq(self.settings[i].0.as_str(), key) {
                proof {
                    let k = choose|k: int|
                        0 <= k < self.settings@.len() && (#[trigger] self.settings@[k]).0@ == key@;
                    if k != i {
                        assert(settings_unique(self.settings@));
                        if k > i {
                            assert(self.settings@[i as int].0@ != self.settings@[k].0@);
                        }
                    }
                }
                return Some(i);
            }
            i = i + 1;
        }
        None
    }

    fn find_daily(&self, cycle_id: &str, date: Date) -> (res: Option<usize>)
        ensures
            res matches Some(i) ==> i < self.daily@.len() && daily_key(self.daily@[i as int], cycle_id@, date@)
                && daily_lookup(self.daily@, cycle_id@, date@) == Some(self.daily@[i as int]),
            res is None ==> daily_lookup(self.daily@, cycle_id@, date@) is None,
            res is None ==> forall|j: int|
                0 <= j < self.daily@.len() ==> !daily_key(#[trigger] self.daily@[j], cycle_id@, date@),
    {
        proof {
            use_type_invariant(self);
        }
        let mut i: usize = 0;
        while i < self.daily.len()
            invariant
                i <= self.daily@.len(),
                daily_unique(self.daily@),
                forall|j: int| 0 <= j < i ==> !daily_key(#[trigger] self.daily@[j], cycle_id@, date@),
            decreases self.daily@.len() - i,
        {
            if self.daily[i].work_date.same_day(&date) && text_eq(self.daily[i].cycle_id.as_str(), cycle_id) {
                proof {
                    let k = choose|k: int|
                        0 <= k < self.daily@.len() && daily_key(#[trigger] self.daily@[k], cycle_id@, date@);
                    if k != i {
                        assert(daily_unique(self.daily@));
                        if k > i {
                            assert(!daily_key(self.daily@[i as int], self.daily@[k].cycle_id@, self.daily@[k].work_date@));
                        }
                    }
                }
                return Some(i);
            }
            i = i + 1;
        }
        None
    }

    fn find_bag(&self, bag_id: &str) -> (res: Option<usize>)
        ensures
            res matches Some(i) ==> i < self.bags@.len() && self.bags@[i as int].bag_id@ == bag_id@
                && bag_lookup(self.bags@, bag_id@) == Some(self.bags@[i as int]),
            res is None ==> bag_lookup(self.bags@, bag_id@) is None,
            res is None ==> forall|j: int|
                0 <= j < self.bags@.len() ==> (#[trigger] self.bags@[j]).bag_id@ != bag_id@,
    {
        proof {
            use_type_invariant(self);
        }
        let mut i: usize = 0;
        while i < self.bags.len()
            invariant
                i <= self.bags@.len(),
                bags_unique(self.bags@),
                forall|j: int| 0 <= j < i ==> (#[trigger] self.bags@[j]).bag_id@ != bag_id@,
            decreases self.bags@.len() - i,
        {
            if text_eq(self.bags[i].bag_id.as_str(), bag_id) {
                proof {
                    let k = choose|k: int|
                        0 <= k < self.bags@.len() && (#[trigger] self.bags@[k]).bag_id@ == bag_id@;
                    if k != i {
                        assert(bags_unique(self.bags@));
                        if k > i {
                            assert(self.bags@[i as int].bag_id@ != self.bags@[k].bag_id@);
                        }
                    }
                }
                return Some(i);
            }
            i = i + 1;
        }
        None
    }

    fn find_event(&self, event_id: &str) -> (res: Option<usize>)
        ensures
            res matches Some(i) ==> i < self.events@.len() && self.events@[i as int].event_id@
                == event_id@ && event_lookup(self.events@, event_id@) == Some(self.events@[i as int]),
            res is None ==> event_lookup(self.events@, event_id@) is None,
            res is None ==> forall|j: int|
                0 <= j < self.events@.len() ==> (#[trigger] self.events@[j]).event_id@ != event_id@,
    {
        proof {
            use_type_invariant(self);
        }
        let mut i: usize = 0;
        while i < self.events.len()
            invariant
                i <= self.events@.len(),
                events_unique(self.events@),
                forall|j: int| 0 <= j < i ==> (#[trigger] self.events@[j]).event_id@ != event_id@,
            decreases self.events@.len() - i,
        {
            if text_eq(self.events[i].event_id.as_str(), event_id) {
                proof {
                    let k = choose|k: int|
                        0 <= k < self.events@.len() && (#[trigger] self.events@[k]).event_id@ == event_id@;
                    if k != i {
                        assert(events_unique(self.events@));
                        if k > i {
                            assert(self.events@[i as int].event_id@ != self.events@[k].event_id@);
                        }
                    }
                }
                return Some(i);
            }
            i = i + 1;
        }
        None
    }

    /// The frozen payroll cycle of an id.
    pub fn payroll_cycle(&self, cycle_id: &str) -> (res: Option<PayrollCycleRecord>)
        ensures
            res == cycle_lookup(self.cycles_view(), cycle_id@),
            res matches Some(r) ==> r.workday_count > 0,
    {
        proof {
            use_type_invariant(self);
        }
        match self.find_cycle(cycle_id) {
            Some(i) => Some(self.cycles[i].clone()),
            None => None,
        }
    }

    /// The value of a setting.
    pub fn setting(&self, key: &str) -> (res: Option<String>)
        ensures
            res matches Some(v) ==> setting_lookup(self.settings_view(), key@) == Some(v@),
            res is None ==> setting_lookup(self.settings_view(), key@) is None,
    {
        match self.find_setting(key) {
            Some(i) => Some(self.settings[i].1.clone()),
            None => None,
        }
    }

    /// The daily reward state of a cycle and work date.
    pub fn daily_reward_state(&self, cycle_id: &str, work_date: Date) -> (res: Option<DailyRewardState>)
        ensures
            res == daily_lookup(self.daily_view(), cycle_id@, work_date@),
            res matches Some(st) ==> counts_ordered(st),
    {
        proof {
            use_type_invariant(self);
        }
        match self.find_daily(cycle_id, work_date) {
            Some(i) => Some(self.daily[i].clone()),
            None => None,
        }
    }

    /// The offline reward bag of an id.
    pub fn offline_reward_bag(&self, bag_id: &str) -> (res: Option<OfflineRewardBag>)
        ensures
            res == bag_lookup(self.bags_view(), bag_id@),
    {
        match self.find_bag(bag_id) {
            Some(i) => Some(self.bags[i].clone()),
            None => None,
        }
    }

    /// The live reward event of an id.
    pub fn live_reward_event(&self, event_id: &str) -> (res: Option<LiveRewardEvent>)
        ensures
            res == event_lookup(self.events_view(), event_id@),
    {
        match self.find_event(event_id) {
            Some(i) => Some(self.events[i].clone()),
            None => None,
        }
    }

    pub fn payroll_cycle_count(&self) -> (res: u64)
        ensures
            res == self.cycles_view().len(),
    {
        self.cycles.len() as u64
    }

    pub fn offline_reward_bag_count(&self) -> (res: u64)
        ensures
            res == self.bags_view().len(),
    {
        self.bags.len() as u64
    }

    pub fn collection_ledger_count(&self) -> (res: u64)
        ensures
            res == self.ledger_view().len(),
    {
        self.ledger.len() as u64
    }
}


impl LedgerStore {
    /// Applies daily writes in order: each replaces the row of its key or is appended.
    fn write_daily_rows(&mut self, writes: &Vec<DailyRewardState>)
        requires
            forall|i: int| 0 <= i < writes@.len() ==> counts_ordered(#[trigger] writes@[i]),
        ensures
            forall|c: Seq<char>, d: int|
                #[trigger] daily_lookup(final(self).daily_view(), c, d) == daily_after_writes(
                    old(self).daily_view(),
                    writes@,
                    c,
                    d,
                ),
            final(self).cycles_view() == old(self).cycles_view(),
            final(self).settings_view() == old(self).settings_view(),
            final(self).bags_view() == old(self).bags_view(),
            final(self).items_view() == old(self).items_view(),
            final(self).ledger_view() == old(self).ledger_view(),
            final(self).events_view() == old(self).events_view(),
    {
        proof {
            use_type_invariant(&*self);
        }
        let ghost d0 = self.daily@;
        let mut daily: Vec<DailyRewardState> = Vec::new();
        std::mem::swap(&mut daily, &mut self.daily);
        let mut k: usize = 0;
        assert(writes@.take(0) == Seq::<DailyRewardState>::empty());
        while k < writes.len()
            invariant
                k <= writes@.len(),
                forall|i: int| 0 <= i < writes@.len() ==> counts_ordered(#[trigger] writes@[i]),
                forall|c: Seq<char>, d: int|
                    #[trigger] daily_lookup(daily@, c, d) == daily_after_writes(
                        d0,
                        writes@.take(k as int),
                        c,
                        d,
                    ),
                daily_unique(daily@),
                forall|i: int| 0 <= i < daily@.len() ==> counts_ordered(#[trigger] daily@[i]),
            decreases writes@.len() - k,
        {
            let ghost before = daily@;
            let w = writes[k].clone();
            put_daily(&mut daily, w);
            proof {
                let after = daily@;
                assert forall|i: int| 0 <= i < after.len() implies counts_ordered(#[trigger] after[i]) by {
                    if after[i] != w {
                        let j = choose|j: int| 0 <= j < before.len() && before[j] == after[i];
                        assert(counts_ordered(before[j]));
                    }
                }
                let t1 = writes@.take(k + 1);
                assert(t1.drop_last() == writes@.take(k as int));
                assert(t1.last() == w);
            }
            k = k + 1;
        }
        assert(writes@.take(k as int) == writes@);
        std::mem::swap(&mut daily, &mut self.daily);
    }
}


/// The counts as the ledger stores them: signed 64-bit integers.
pub fn counts_to_sql(counts: RewardCounts) -> (res: Result<(i64, i64, i64), PersistenceError>)
    ensures
        res is Ok <==> triple_fits_i64(counts.spec_triple()),
        res matches Ok(t) ==> (t.0 as int, t.1 as int, t.2 as int) == counts.spec_triple(),
        res matches Err(e) ==> e == PersistenceError::CountOutOfRange,
{
    if counts.silver > i64::MAX as u64 || counts.gold > i64::MAX as u64 || counts.diamond
        > i64::MAX as u64 {
        return Err(PersistenceError::CountOutOfRange);
    }
    Ok((counts.silver as i64, counts.gold as i64, counts.diamond as i64))
}

/// `left + right`, count by count; `CountOutOfRange` when a count overflows.
pub fn checked_add_counts(left: RewardCounts, right: RewardCounts) -> (res: Result<
    RewardCounts,
    PersistenceError,
>)
    ensures
        res is Ok <==> triple_fits_u64(counts_sum(left.spec_triple(), right.spec_triple())),
        res matches Ok(c) ==> c.spec_triple() == counts_sum(left.spec_triple(), right.spec_triple()),
        res matches Err(e) ==> e == PersistenceError::CountOutOfRange,
{
    let silver = match left.silver.checked_add(right.silver) {
        Some(v) => v,
        None => {
            return Err(PersistenceError::CountOutOfRange);
        },
    };
    let gold = match left.gold.checked_add(right.gold) {
        Some(v) => v,
        None => {
            return Err(PersistenceError::CountOutOfRange);
        },
    };
    let diamond = match left.diamond.checked_add(right.diamond) {
        Some(v) => v,
        None => {
            return Err(PersistenceError::CountOutOfRange);
        },
    };
    Ok(RewardCounts { silver, gold, diamond })
}

/// `left - right`, count by count, stopping at zero.
pub fn saturating_sub_counts(left: RewardCounts, right: RewardCounts) -> (res: RewardCounts)
    ensures
        res == counts_sat_sub(left, right),
{
    RewardCounts {
        silver: left.silver.saturating_sub(right.silver),
        gold: left.gold.saturating_sub(right.gold),
        diamond: left.diamond.saturating_sub(right.diamond),
    }
}

/// The larger of each count.
fn max_counts(left: RewardCounts, right: RewardCounts) -> (res: RewardCounts)
    ensures
        res == counts_max(left, right),
{
    RewardCounts {
        silver: if left.silver >= right.silver { left.silver } else { right.silver },
        gold: if left.gold >= right.gold { left.gold } else { right.gold },
        diamond: if left.diamond >= right.diamond { left.diamond } else { right.diamond },
    }
}

/// The later of two instants.
fn latest(a: Instant, b: Instant) -> (res: Instant)
    ensures
        res@ == instant_max(a@, b@),
        res == a || res == b,
{
    if a.is_before(&b) {
        b
    } else {
        a
    }
}

impl LedgerStore {
    /// Replaces the bag items by `old items + extra`.
    fn append_items(&mut self, extra: &mut Vec<OfflineRewardBagItem>)
        ensures
            final(self).items_view() == old(self).items_view() + old(extra)@,
            final(self).cycles_view() == old(self).cycles_view(),
            final(self).settings_view() == old(self).settings_view(),
            final(self).daily_view() == old(self).daily_view(),
            final(self).bags_view() == old(self).bags_view(),
            final(self).ledger_view() == old(self).ledger_view(),
            final(self).events_view() == old(self).events_view(),
    {
        proof {
            use_type_invariant(&*self);
        }
        let mut items: Vec<OfflineRewardBagItem> = Vec::new();
        std::mem::swap(&mut items, &mut self.bag_items);
        items.append(extra);
        std::mem::swap(&mut items, &mut self.bag_items);
    }

    /// Adds a bag with a fresh id, in creation-time order.
    fn add_bag(&mut self, bag: OfflineRewardBag)
        requires
            bag_lookup(old(self).bags_view(), bag.bag_id@) is None,
        ensures
            forall|id: Seq<char>|
                #[trigger] bag_lookup(final(self).bags_view(), id) == if id == bag.bag_id@ {
                    Some(bag)
                } else {
                    bag_lookup(old(self).bags_view(), id)
                },
            exists|p: int|
                0 <= p <= old(self).bags_view().len() && final(self).bags_view() == old(
                    self,
                ).bags_view().insert(p, bag),
            final(self).cycles_view() == old(self).cycles_view(),
            final(self).settings_view() == old(self).settings_view(),
            final(self).daily_view() == old(self).daily_view(),
            final(self).items_view() == old(self).items_view(),
            final(self).ledger_view() == old(self).ledger_view(),
            final(self).events_view() == old(self).events_view(),
    {
        proof {
            use_type_invariant(&*self);
            if exists|j: int| 0 <= j < self.bags@.len() && (#[trigger] self.bags@[j]).bag_id@ == bag.bag_id@ {
                let j = choose|j: int| 0 <= j < self.bags@.len() && (#[trigger] self.bags@[j]).bag_id@ == bag.bag_id@;
                lemma_bag_hit(self.bags@, j, bag.bag_id@);
            }
        }
        let mut bags: Vec<OfflineRewardBag> = Vec::new();
        std::mem::swap(&mut bags, &mut self.bags);
        let pos = insert_bag(&mut bags, bag);
        std::mem::swap(&mut bags, &mut self.bags);
    }

    /// The daily rows, bag items and total gap that reconciling `ents` would write.
    fn reconcile_plan(&self, cycle_id: &str, ents: &Vec<(Date, RewardCounts)>, created_at: Instant) -> (res:
        Result<(Vec<DailyRewardState>, Vec<(Date, RewardCounts)>, RewardCounts), PersistenceError>)
        requires
            dates_distinct(ents@),
            forall|i: int| 0 <= i < ents@.len() ==> (#[trigger] ents@[i]).1.le(full_day_counts()),
        ensures
            match res {
                Ok(plan) => {
                    &&& plan.0@.len() == ents@.len()
                    &&& daily_unique(plan.0@)
                    &&& forall|i: int|
                        0 <= i < plan.0@.len() ==> counts_ordered(#[trigger] plan.0@[i])
                            && reconciled_row(
                            plan.0@[i],
                            daily_lookup(self.daily_view(), cycle_id@, ents@[i].0@),
                            cycle_id@,
                            ents@[i].0@,
                            ents@[i].1,
                            created_at,
                        )
                    &&& plan.1@.map_values(|x: (Date, RewardCounts)| (x.0@, x.1)) == gap_items(
                        self.daily_view(),
                        cycle_id@,
                        ents@,
                    )
                    &&& plan.2.spec_triple() == gap_total(self.daily_view(), cycle_id@, ents@)
                },
                Err(e) => e == PersistenceError::CountOutOfRange && !triple_fits_u64(
                    gap_total(self.daily_view(), cycle_id@, ents@),
                ),
            },
    {
        proof {
            use_type_invariant(self);
        }
        let ghost daily = self.daily_view();
        let mut writes: Vec<DailyRewardState> = Vec::new();
        let mut items: Vec<(Date, RewardCounts)> = Vec::new();
        let mut total = RewardCounts { silver: 0, gold: 0, diamond: 0 };
        let mut i: usize = 0;
        assert(ents@.take(0) == Seq::<(Date, RewardCounts)>::empty());
        assert(items@.map_values(|x: (Date, RewardCounts)| (x.0@, x.1)) == Seq::<(int, RewardCounts)>::empty());
        while i < ents.len()
            invariant
                daily == self.daily_view(),
                i <= ents@.len(),
                dates_distinct(ents@),
                forall|k: int| 0 <= k < ents@.len() ==> (#[trigger] ents@[k]).1.le(full_day_counts()),
                writes@.len() == i,
                forall|k: int|
                    0 <= k < i ==> counts_ordered(#[trigger] writes@[k]) && reconciled_row(
                        writes@[k],
                        daily_lookup(daily, cycle_id@, ents@[k].0@),
                        cycle_id@,
                        ents@[k].0@,
                        ents@[k].1,
                        created_at,
                    ),
                items@.map_values(|x: (Date, RewardCounts)| (x.0@, x.1)) == gap_items(
                    daily,
                    cycle_id@,
                    ents@.take(i as int),
                ),
                total.spec_triple() == gap_total(daily, cycle_id@, ents@.take(i as int)),
            decreases ents@.len() - i,
        {
            let date = ents[i].0;
            let ent = ents[i].1;
            let o = self.daily_reward_state(cycle_id, date);
            let (entitled, accounted, collected, updated) = match &o {
                Some(st) => (max_counts(st.entitled, ent), st.accounted, st.collected, latest(st.updated_at, created_at)),
                None => (ent, RewardCounts { silver: 0, gold: 0, diamond: 0 }, RewardCounts { silver: 0, gold: 0, diamond: 0 }, created_at),
            };
            let gap = saturating_sub_counts(ent, accounted);
            let no_gap = gap.silver == 0 && gap.gold == 0 && gap.diamond == 0;
            let row = if no_gap {
                DailyRewardState { cycle_id: cycle_id.to_string(), work_date: date, entitled, accounted, collected, updated_at: updated }
            } else {
                DailyRewardState {
                    cycle_id: cycle_id.to_string(),
                    work_date: date,
                    entitled,
                    accounted: max_counts(accounted, ent),
                    collected,
                    updated_at: created_at,
                }
            };
            proof {
                let t1 = ents@.take(i + 1);
                assert(t1.drop_last() == ents@.take(i as int));
                assert(t1.last() == ents@[i as int]);
                assert(reconcile_gap(daily, cycle_id@, ents@[i as int]) == gap);
            }
            writes.push(row);
            if !no_gap {
                total = match checked_add_counts(total, gap) {
                    Ok(t) => t,
                    Err(e) => {
                        proof {
                            lemma_gap_total_monotonic(daily, cycle_id@, ents@, i + 1);
                        }
                        return Err(e);
                    },
                };
                let ghost before = items@;
                items.push((date, gap));
                proof {
                    assert(items@ == before.push((date, gap)));
                    assert(items@.map_values(|x: (Date, RewardCounts)| (x.0@, x.1)) == before.map_values(
                        |x: (Date, RewardCounts)| (x.0@, x.1),
                    ).push((date@, gap)));
                }
            }
            i = i + 1;
        }
        proof {
            assert(ents@.take(i as int) == ents@);
            assert forall|a: int, b: int| 0 <= a < b < writes@.len() implies !daily_key(
                #[trigger] writes@[a],
                writes@[b].cycle_id@,
                (#[trigger] writes@[b]).work_date@,
            ) by {
                assert(ents@[a].0@ != ents@[b].0@);
            }
        }
        Ok((writes, items, total))
    }

    /// Reconciles offline entitlements of a cycle: merges each work date's entitlement into its
    /// daily row, and when some of it is not yet accounted, accounts the gaps in one new
    /// unclaimed bag (with one item per work date with a gap) and returns it.
    pub(crate) fn reconcile_offline_transaction(
        &mut self,
        cycle_id: &str,
        period_start: Instant,
        period_end: Instant,
        ents: &Vec<(Date, RewardCounts)>,
        values: RewardValues,
        created_at: Instant,
    ) -> (res: Result<Option<OfflineRewardBag>, PersistenceError>)
        requires
            dates_distinct(ents@),
            forall|i: int| 0 <= i < ents@.len() ==> (#[trigger] ents@[i]).1.le(full_day_counts()),
        ensures
            reconcile_outcome(*old(self), *final(self), cycle_id@, period_start, period_end, ents@, values, created_at, res),
    {
        self.reconcile_offline_with_id(cycle_id, period_start, period_end, ents, values, new_uuid(), created_at)
    }

    /// Reconciles offline entitlements as `reconcile_offline_transaction` does, with
    /// `bag_id` as the id of the bag it creates: a bag is created under that id, and an id
    /// refused as taken is that one.
    pub fn reconcile_offline_with_id(
        &mut self,
        cycle_id: &str,
        period_start: Instant,
        period_end: Instant,
        ents: &Vec<(Date, RewardCounts)>,
        values: RewardValues,
        bag_id: String,
        created_at: Instant,
    ) -> (res: Result<Option<OfflineRewardBag>, PersistenceError>)
        requires
            dates_distinct(ents@),
            forall|i: int| 0 <= i < ents@.len() ==> (#[trigger] ents@[i]).1.le(full_day_counts()),
        ensures
            reconcile_outcome(*old(self), *final(self), cycle_id@, period_start, period_end, ents@, values, created_at, res),
            res matches Ok(Some(b)) ==> b.bag_id@ == bag_id@,
            res matches Err(PersistenceError::DuplicateId(x)) ==> x@ == bag_id@,
    {
        let ghost old_daily = self.daily_view();
        let plan = self.reconcile_plan(cycle_id, ents, created_at);
        let (writes, items, total) = match plan {
            Ok(p) => p,
            Err(e) => {
                proof {
                    assert(gap_items(old_daily, cycle_id@, ents@).len() > 0) by {
                        lemma_gaps_empty_total_zero(old_daily, cycle_id@, ents@);
                    }
                }
                return Err(e);
            },
        };
        if items.len() == 0 {
            self.write_daily_rows(&writes);
            proof {
                lemma_reconciled_from_writes(self.daily_view(), old_daily, writes@, cycle_id@, ents@, created_at);
            }
            return Ok(None);
        }
        proof {
            assert(items@.map_values(|x: (Date, RewardCounts)| (x.0@, x.1)).len() == items@.len());
        }
        let exact_value = match values.total_value(total) {
            Some(v) => v,
            None => {
                return Err(PersistenceError::ValueOutOfRange);
            },
        };
        match counts_to_sql(total) {
            Ok(_) => {},
            Err(e) => {
                return Err(e);
            },
        }
        if self.find_bag(bag_id.as_str()).is_some() {
            return Err(PersistenceError::DuplicateId(bag_id));
        }
        let bag = OfflineRewardBag {
            bag_id: bag_id.clone(),
            cycle_id: cycle_id.to_string(),
            period_start,
            period_end,
            counts: total,
            exact_value,
            created_at,
            claimed: false,
            claimed_at: None,
        };
        let mut new_items: Vec<OfflineRewardBagItem> = Vec::new();
        let mut k: usize = 0;
        while k < items.len()
            invariant
                k <= items@.len(),
                new_items@.len() == k,
                forall|j: int|
                    0 <= j < k ==> (#[trigger] new_items@[j]).bag_id@ == bag_id@ && new_items@[j].work_date
                        == items@[j].0 && new_items@[j].counts == items@[j].1,
            decreases items@.len() - k,
        {
            new_items.push(OfflineRewardBagItem { bag_id: bag_id.clone(), work_date: items[k].0, counts: items[k].1 });
            k = k + 1;
        }
        let ghost old_items = self.items_view();
        let ghost added = new_items@;
        self.write_daily_rows(&writes);
        proof {
            lemma_reconciled_from_writes(self.daily_view(), old_daily, writes@, cycle_id@, ents@, created_at);
        }
        self.append_items(&mut new_items);
        self.add_bag(bag.clone());
        proof {
            let gaps = gap_items(old_daily, cycle_id@, ents@);
            let mapped = items@.map_values(|x: (Date, RewardCounts)| (x.0@, x.1));
            assert(self.items_view().subrange(0, old_items.len() as int) == old_items);
            assert(self.items_view().skip(old_items.len() as int) == added);
            assert forall|j: int| 0 <= j < added.len() implies (#[trigger] added[j]).bag_id@ == bag.bag_id@
                && added[j].work_date@ == gaps[j].0 && added[j].counts == gaps[j].1 by {
                assert(mapped[j] == (items@[j].0@, items@[j].1));
            }
        }
        Ok(Some(bag))
    }
}

impl LedgerStore {
    /// Replaces a bag by a version of it with the same id and creation time.
    fn replace_bag(&mut self, i: usize, bag: OfflineRewardBag)
        requires
            i < old(self).bags_view().len(),
            old(self).bags_view()[i as int].bag_id@ == bag.bag_id@,
            old(self).bags_view()[i as int].created_at == bag.created_at,
        ensures
            final(self).bags_view() == old(self).bags_view().update(i as int, bag),
            forall|id: Seq<char>|
                #[trigger] bag_lookup(final(self).bags_view(), id) == if id == bag.bag_id@ {
                    Some(bag)
                } else {
                    bag_lookup(old(self).bags_view(), id)
                },
            final(self).same_rows_but_bags(*old(self)),
    {
        proof {
            use_type_invariant(&*self);
        }
        let mut bags: Vec<OfflineRewardBag> = Vec::new();
        std::mem::swap(&mut bags, &mut self.bags);
        set_bag(&mut bags, i, bag);
        std::mem::swap(&mut bags, &mut self.bags);
    }

    /// Adds a ledger entry with a fresh id, in creation-time order.
    fn add_ledger_entry(&mut self, entry: CollectionLedgerEntry)
        requires
            ledger_lookup(old(self).ledger_view(), entry.transaction_id@) is None,
        ensures
            forall|id: Seq<char>|
                #[trigger] ledger_lookup(final(self).ledger_view(), id) == if id == entry.transaction_id@ {
                    Some(entry)
                } else {
                    ledger_lookup(old(self).ledger_view(), id)
                },
            exists|p: int|
                0 <= p <= old(self).ledger_view().len() && final(self).ledger_view() == old(
                    self,
                ).ledger_view().insert(p, entry),
            final(self).same_rows_but_ledger(*old(self)),
    {
        proof {
            use_type_invariant(&*self);
            if exists|j: int| 0 <= j < self.ledger@.len() && (#[trigger] self.ledger@[j]).transaction_id@ == entry.transaction_id@ {
                let j = choose|j: int| 0 <= j < self.ledger@.len() && (#[trigger] self.ledger@[j]).transaction_id@ == entry.transaction_id@;
                lemma_ledger_hit(self.ledger@, j, entry.transaction_id@);
            }
        }
        let mut ledger: Vec<CollectionLedgerEntry> = Vec::new();
        std::mem::swap(&mut ledger, &mut self.ledger);
        let pos = insert_ledger(&mut ledger, entry);
        std::mem::swap(&mut ledger, &mut self.ledger);
    }

    fn find_ledger_entry(&self, transaction_id: &str) -> (res: bool)
        ensures
            res == ledger_lookup(self.ledger_view(), transaction_id@) is Some,
    {
        let mut i: usize = 0;
        while i < self.ledger.len()
            invariant
                i <= self.ledger@.len(),
                forall|j: int| 0 <= j < i ==> (#[trigger] self.ledger@[j]).transaction_id@ != transaction_id@,
            decreases self.ledger@.len() - i,
        {
            if text_eq(self.ledger[i].transaction_id.as_str(), transaction_id) {
                return true;
            }
            i = i + 1;
        }
        false
    }

    /// The daily writes of collecting the items of a bag of `cycle_id`.
    fn claim_plan(&self, cycle_id: &str, bag_id: &str, at: Instant) -> (res: Option<Vec<DailyRewardState>>)
        ensures
            res matches Some(w) ==> claim_writes(
                self.daily_view(),
                cycle_id@,
                bag_items_of(self.items_view(), bag_id@),
                at,
            ) == Some(w@),
            res is None ==> claim_writes(
                self.daily_view(),
                cycle_id@,
                bag_items_of(self.items_view(), bag_id@),
                at,
            ) is None,
            res matches Some(w) ==> forall|i: int| 0 <= i < w@.len() ==> counts_ordered(#[trigger] w@[i]),
    {
        proof {
            use_type_invariant(self);
        }
        let ghost daily = self.daily_view();
        let ghost items = self.items_view();
        let mut writes: Vec<DailyRewardState> = Vec::new();
        let mut k: usize = 0;
        assert(items.take(0) == Seq::<OfflineRewardBagItem>::empty());
        assert(bag_items_of(items.take(0), bag_id@) == Seq::<OfflineRewardBagItem>::empty()) by {
            reveal(Seq::filter);
        }
        while k < self.bag_items.len()
            invariant
                daily == self.daily_view(),
                items == self.items_view(),
                daily_unique(self.daily@),
                forall|i: int| 0 <= i < self.daily@.len() ==> counts_ordered(#[trigger] self.daily@[i]),
                k <= items.len(),
                claim_writes(daily, cycle_id@, bag_items_of(items.take(k as int), bag_id@), at) == Some(writes@),
                forall|i: int| 0 <= i < writes@.len() ==> counts_ordered(#[trigger] writes@[i]),
            decreases items.len() - k,
        {
            let ghost prefix = items.take(k as int);
            let ghost next = items.take(k + 1);
            proof {
                assert(next.drop_last() == prefix);
                assert(next.last() == items[k as int]);
            }
            if text_eq(self.bag_items[k].bag_id.as_str(), bag_id) {
                let item = &self.bag_items[k];
                proof {
                    reveal(Seq::filter);
                    assert(bag_items_of(next, bag_id@) == bag_items_of(prefix, bag_id@).push(items[k as int]));
                    assert(bag_items_of(next, bag_id@).drop_last() == bag_items_of(prefix, bag_id@));
                }
                let current = daily_after(&self.daily, &writes, cycle_id, item.work_date);
                let st = match current {
                    Some(st) => st,
                    None => {
                        proof {
                            lemma_claim_writes_fail_extends(daily, cycle_id@, items, bag_id@, at, k as int + 1);
                        }
                        return None;
                    },
                };
                proof {
                    lemma_after_writes_ordered(self.daily@, writes@, cycle_id@, item.work_date@);
                }
                let s = st.collected.silver.checked_add(item.counts.silver);
                let g = st.collected.gold.checked_add(item.counts.gold);
                let d = st.collected.diamond.checked_add(item.counts.diamond);
                let ok = match (s, g, d) {
                    (Some(s), Some(g), Some(d)) => s <= st.accounted.silver && g <= st.accounted.gold
                        && d <= st.accounted.diamond,
                    _ => false,
                };
                if !ok {
                    proof {
                        lemma_claim_writes_fail_extends(daily, cycle_id@, items, bag_id@, at, k as int + 1);
                    }
                    return None;
                }
                let row = DailyRewardState {
                    cycle_id: st.cycle_id.clone(),
                    work_date: st.work_date,
                    entitled: st.entitled,
                    accounted: st.accounted,
                    collected: RewardCounts {
                        silver: s.unwrap(),
                        gold: g.unwrap(),
                        diamond: d.unwrap(),
                    },
                    updated_at: at,
                };
                proof {
                    lemma_collect_into_ordered(st, item.counts, at);
                    assert(collect_into(st, item.counts, at) == Some(row));
                }
                writes.push(row);
            } else {
                proof {
                    reveal(Seq::filter);
                    assert(bag_items_of(next, bag_id@) == bag_items_of(prefix, bag_id@));
                }
            }
            k = k + 1;
        }
        proof {
            assert(items.take(k as int) == items);
        }
        Some(writes)
    }

    /// Claims an unclaimed bag: marks it claimed, collects each of its items into the daily
    /// row of its work date, and records one ledger entry for the whole bag.
    pub(crate) fn claim_offline_bag_transaction(&mut self, bag_id: &str, claimed_at: Instant) -> (res: Result<
        CollectionLedgerEntry,
        PersistenceError,
    >)
        ensures
            claim_outcome(*old(self), *final(self), bag_id@, claimed_at, res),
    {
        self.claim_offline_bag_with_id(bag_id, new_uuid(), claimed_at)
    }

    /// Claims an offline bag as `claim_offline_bag_transaction` does, with `transaction_id`
    /// as the id of the ledger entry: the entry is recorded under that id, and an id refused
    /// as taken is that one.
    pub fn claim_offline_bag_with_id(&mut self, bag_id: &str, transaction_id: String, claimed_at: Instant) -> (res:
        Result<CollectionLedgerEntry, PersistenceError>)
        ensures
            claim_outcome(*old(self), *final(self), bag_id@, claimed_at, res),
            res matches Ok(entry) ==> entry.transaction_id@ == transaction_id@,
            res matches Err(PersistenceError::DuplicateId(x)) ==> x@ == transaction_id@,
    {
        proof {
            use_type_invariant(&*self);
        }
        let i = match self.find_bag(bag_id) {
            Some(i) => i,
            None => {
                return Err(PersistenceError::BagNotFound(bag_id.to_string()));
            },
        };
        let bag = self.bags[i].clone();
        if bag.claimed {
            return Err(PersistenceError::BagAlreadyClaimed(bag_id.to_string()));
        }
        let writes = match self.claim_plan(bag.cycle_id.as_str(), bag_id, claimed_at) {
            Some(w) => w,
            None => {
                return Err(
                    PersistenceError::InvariantViolation("collected reward count would exceed accounted count"),
                );
            },
        };
        match counts_to_sql(bag.counts) {
            Ok(_) => {},
            Err(e) => {
                return Err(e);
            },
        }
        if self.find_ledger_entry(transaction_id.as_str()) {
            return Err(PersistenceError::DuplicateId(transaction_id));
        }
        let entry = CollectionLedgerEntry {
            transaction_id,
            cycle_id: bag.cycle_id.clone(),
            source_type: "OFFLINE_BAG_CLAIM".to_string(),
            source_id: bag.bag_id.clone(),
            counts: bag.counts,
            exact_value: bag.exact_value,
            created_at: claimed_at,
        };
        let updated = OfflineRewardBag {
            bag_id: bag.bag_id.clone(),
            cycle_id: bag.cycle_id.clone(),
            period_start: bag.period_start,
            period_end: bag.period_end,
            counts: bag.counts,
            exact_value: bag.exact_value,
            created_at: bag.created_at,
            claimed: true,
            claimed_at: Some(claimed_at),
        };
        self.replace_bag(i, updated);
        self.write_daily_rows(&writes);
        self.add_ledger_entry(entry.clone());
        Ok(entry)
    }
}

impl LedgerStore {
    /// Replaces a live event by a version of it with the same id and ordering key.
    fn replace_event(&mut self, i: usize, event: LiveRewardEvent)
        requires
            i < old(self).events_view().len(),
            old(self).events_view()[i as int].event_id@ == event.event_id@,
            old(self).events_view()[i as int].work_date == event.work_date,
            old(self).events_view()[i as int].event_index == event.event_index,
        ensures
            final(self).events_view() == old(self).events_view().update(i as int, event),
            forall|id: Seq<char>|
                #[trigger] event_lookup(final(self).events_view(), id) == if id == event.event_id@ {
                    Some(event)
                } else {
                    event_lookup(old(self).events_view(), id)
                },
            final(self).same_rows_but_events(*old(self)),
    {
        proof {
            use_type_invariant(&*self);
        }
        let mut events: Vec<LiveRewardEvent> = Vec::new();
        std::mem::swap(&mut events, &mut self.events);
        set_event(&mut events, i, event);
        std::mem::swap(&mut events, &mut self.events);
    }

    /// Collects a pending live event into the wallet: marks it collected, adds its counts to
    /// the collected counts of its work date, and records a ledger entry for it.
    pub(crate) fn collect_live_reward_transaction(&mut self, event_id: &str, collected_at: Instant) -> (res:
        Result<CollectionLedgerEntry, PersistenceError>)
        ensures
            collect_outcome(*old(self), *final(self), event_id@, collected_at, res),
    {
        self.collect_live_reward_with_id(event_id, new_uuid(), collected_at)
    }

    /// Collects a live event as `collect_live_reward_transaction` does, with
    /// `transaction_id` as the id of the ledger entry: the entry is recorded under that id,
    /// and an id refused as taken is that one.
    pub fn collect_live_reward_with_id(
        &mut self,
        event_id: &str,
        transaction_id: String,
        collected_at: Instant,
    ) -> (res: Result<CollectionLedgerEntry, PersistenceError>)
        ensures
            collect_outcome(*old(self), *final(self), event_id@, collected_at, res),
            res matches Ok(entry) ==> entry.transaction_id@ == transaction_id@,
            res matches Err(PersistenceError::DuplicateId(x)) ==> x@ == transaction_id@,
    {
        proof {
            use_type_invariant(&*self);
        }
        let i = match self.find_event(event_id) {
            Some(i) => i,
            None => {
                return Err(PersistenceError::LiveRewardNotFound(event_id.to_string()));
            },
        };
        let event = self.events[i].clone();
        if event.status != LiveRewardStatus::Pending {
            return Err(
                PersistenceError::LiveRewardAlreadySettled {
                    event_id: event_id.to_string(),
                    status: event.status.as_code().to_string(),
                },
            );
        }
        let counts = event.reward_type.counts();
        let st = match self.daily_reward_state(event.cycle_id.as_str(), event.work_date) {
            Some(st) => st,
            None => {
                return Err(PersistenceError::InvariantViolation("live collection would exceed accounted rewards"));
            },
        };
        let s = st.collected.silver.checked_add(counts.silver);
        let g = st.collected.gold.checked_add(counts.gold);
        let d = st.collected.diamond.checked_add(counts.diamond);
        let ok = match (s, g, d) {
            (Some(s), Some(g), Some(d)) => s <= st.accounted.silver && g <= st.accounted.gold && d
                <= st.accounted.diamond,
            _ => false,
        };
        if !ok {
            return Err(PersistenceError::InvariantViolation("live collection would exceed accounted rewards"));
        }
        if self.find_ledger_entry(transaction_id.as_str()) {
            return Err(PersistenceError::DuplicateId(transaction_id));
        }
        let row = DailyRewardState {
            cycle_id: st.cycle_id.clone(),
            work_date: st.work_date,
            entitled: st.entitled,
            accounted: st.accounted,
            collected: RewardCounts { silver: s.unwrap(), gold: g.unwrap(), diamond: d.unwrap() },
            updated_at: collected_at,
        };
        proof {
            lemma_collect_into_ordered(st, counts, collected_at);
            assert(collect_into(st, counts, collected_at) == Some(row));
        }
        let entry = CollectionLedgerEntry {
            transaction_id,
            cycle_id: event.cycle_id.clone(),
            source_type: "LIVE_REWARD_COLLECTION".to_string(),
            source_id: event.event_id.clone(),
            counts,
            exact_value: event.exact_value,
            created_at: collected_at,
        };
        let updated = LiveRewardEvent {
            event_id: event.event_id.clone(),
            cycle_id: event.cycle_id.clone(),
            work_date: event.work_date,
            effective_second_boundary: event.effective_second_boundary,
            event_index: event.event_index,
            reward_type: event.reward_type,
            status: LiveRewardStatus::Collected,
            exact_value: event.exact_value,
            created_at: event.created_at,
            collected_at: Some(collected_at),
            packaged_bag_id: match &event.packaged_bag_id {
                Some(b) => Some(b.clone()),
                None => None,
            },
        };
        let ghost d0 = self.daily_view();
        self.replace_event(i, updated);
        let mut writes: Vec<DailyRewardState> = Vec::new();
        writes.push(row);
        self.write_daily_rows(&writes);
        proof {
            assert forall|c: Seq<char>, dd: int| #[trigger] daily_after_writes(d0, writes@, c, dd) == if daily_key(row, c, dd) {
                Some(row)
            } else {
                daily_lookup(d0, c, dd)
            } by {
                assert(writes@.len() == 1);
                assert(writes@.last() == row);
                assert(writes@.drop_last() == Seq::<DailyRewardState>::empty());
                assert(daily_after_writes(d0, Seq::<DailyRewardState>::empty(), c, dd) == daily_lookup(d0, c, dd));
            }
        }
        self.add_ledger_entry(entry.clone());
        Ok(entry)
    }
}

impl LedgerStore {
    /// The number of pending live events of a cycle.
    fn pending_count(&self, cycle_id: &str) -> (res: u64)
        ensures
            res == count_pending_of(self.events_view(), cycle_id@),
    {
        let ghost s = self.events@;
        let mut count: u64 = 0;
        let mut i: usize = 0;
        assert(s.take(0) == Seq::<LiveRewardEvent>::empty());
        while i < self.events.len()
            invariant
                s == self.events@,
                i <= s.len(),
                count <= i,
                count == count_pending_of(s.take(i as int), cycle_id@),
            decreases s.len() - i,
        {
            proof {
                lemma_count_pending_step(s, cycle_id@, i as int);
            }
            if self.events[i].status == LiveRewardStatus::Pending && text_eq(
                self.events[i].cycle_id.as_str(),
                cycle_id,
            ) {
                count = count + 1;
            }
            i = i + 1;
        }
        assert(s.take(i as int) == s);
        count
    }

    /// The pending live events of a cycle, by work date and event index.
    pub fn pending_live_rewards(&self, cycle_id: &str) -> (res: Vec<LiveRewardEvent>)
        ensures
            res@ == pending_of(self.events_view(), cycle_id@),
    {
        let ghost s = self.events@;
        let mut out: Vec<LiveRewardEvent> = Vec::new();
        let mut i: usize = 0;
        assert(pending_of(s.take(0), cycle_id@) == Seq::<LiveRewardEvent>::empty()) by {
            reveal(Seq::filter);
        }
        while i < self.events.len()
            invariant
                s == self.events@,
                i <= s.len(),
                out@ == pending_of(s.take(i as int), cycle_id@),
            decreases s.len() - i,
        {
            proof {
                reveal(Seq::filter);
                assert(s.take(i + 1).drop_last() == s.take(i as int));
                assert(s.take(i + 1).last() == s[i as int]);
            }
            if self.events[i].status == LiveRewardStatus::Pending && text_eq(
                self.events[i].cycle_id.as_str(),
                cycle_id,
            ) {
                out.push(self.events[i].clone());
            }
            i = i + 1;
        }
        assert(s.take(i as int) == s);
        out
    }

    /// Adds live events with fresh, distinct ids, each in (work date, event index) order.
    fn add_events(&mut self, fresh: &Vec<LiveRewardEvent>)
        requires
            events_unique(fresh@),
            forall|j: int|
                0 <= j < fresh@.len() ==> event_lookup(old(self).events_view(), (#[trigger] fresh@[j]).event_id@)
                    is None,
        ensures
            forall|id: Seq<char>|
                #[trigger] event_lookup(final(self).events_view(), id) == if event_lookup(fresh@, id) is Some {
                    event_lookup(fresh@, id)
                } else {
                    event_lookup(old(self).events_view(), id)
                },
            final(self).events_view().len() == old(self).events_view().len() + fresh@.len(),
            forall|c: Seq<char>|
                #[trigger] count_pending_of(final(self).events_view(), c) == count_pending_of(
                    old(self).events_view(),
                    c,
                ) + count_pending_of(fresh@, c),
            fresh@.len() == 0 ==> final(self).events_view() == old(self).events_view(),
            final(self).same_rows_but_events(*old(self)),
    {
        proof {
            use_type_invariant(&*self);
        }
        let ghost e0 = self.events@;
        let mut events: Vec<LiveRewardEvent> = Vec::new();
        std::mem::swap(&mut events, &mut self.events);
        let mut m: usize = 0;
        assert(fresh@.take(0) == Seq::<LiveRewardEvent>::empty());
        while m < fresh.len()
            invariant
                m <= fresh@.len(),
                events_unique(fresh@),
                forall|j: int| 0 <= j < fresh@.len() ==> event_lookup(e0, (#[trigger] fresh@[j]).event_id@) is None,
                events_unique(events@),
                events_sorted(events@),
                events@.len() == e0.len() + m,
                m == 0 ==> events@ == e0,
                forall|c: Seq<char>|
                    #[trigger] count_pending_of(events@, c) == count_pending_of(e0, c) + count_pending_of(
                        fresh@.take(m as int),
                        c,
                    ),
                forall|id: Seq<char>|
                    #[trigger] event_lookup(events@, id) == if event_lookup(fresh@.take(m as int), id) is Some {
                        event_lookup(fresh@.take(m as int), id)
                    } else {
                        event_lookup(e0, id)
                    },
            decreases fresh@.len() - m,
        {
            let e = fresh[m].clone();
            let ghost t0 = fresh@.take(m as int);
            let ghost t1 = fresh@.take(m + 1);
            proof {
                assert(t1 == t0.push(e));
                assert(t1 == t0.insert(m as int, e));
                assert forall|j: int| 0 <= j < t0.len() implies (#[trigger] t0[j]).event_id@ != e.event_id@ by {
                    assert(fresh@[j].event_id@ != fresh@[m as int].event_id@);
                }
                assert forall|a: int, b: int| 0 <= a < b < t0.len() implies (#[trigger] t0[a]).event_id@ != (
                #[trigger] t0[b]).event_id@ by {
                    assert(fresh@[a].event_id@ != fresh@[b].event_id@);
                }
                lemma_event_insert(t0, m as int, e);
                assert(event_lookup(e0, e.event_id@) is None);
                assert(event_lookup(t0, e.event_id@) is None);
                assert forall|j: int| 0 <= j < events@.len() implies (#[trigger] events@[j]).event_id@ != e.event_id@ by {
                    if events@[j].event_id@ == e.event_id@ {
                        lemma_event_hit(events@, j, e.event_id@);
                    }
                }
            }
            let ghost before = events@;
            let pos = insert_event(&mut events, e);
            proof {
                assert forall|c: Seq<char>|
                    #[trigger] count_pending_of(events@, c) == count_pending_of(e0, c) + count_pending_of(t1, c) by {
                    lemma_count_pending_insert(before, pos@, e, c);
                    assert(t1.drop_last() == t0);
                    assert(t1.last() == e);
                }
            }
            m = m + 1;
        }
        assert(fresh@.take(m as int) == fresh@);
        std::mem::swap(&mut events, &mut self.events);
    }
}

impl LedgerStore {
    /// Whether one of `events` has the id.
    fn id_among(events: &Vec<LiveRewardEvent>, id: &str) -> (res: bool)
        ensures
            res == exists|i: int| 0 <= i < events@.len() && (#[trigger] events@[i]).event_id@ == id@,
    {
        let mut i: usize = 0;
        while i < events.len()
            invariant
                i <= events@.len(),
                forall|j: int| 0 <= j < i ==> (#[trigger] events@[j]).event_id@ != id@,
            decreases events@.len() - i,
        {
            if text_eq(events[i].event_id.as_str(), id) {
                return true;
            }
            i = i + 1;
        }
        false
    }

    /// Materializes the entitled, not yet accounted events of a cycle's work date as pending
    /// live events, up to the cap on pending events of the cycle, and returns the cycle's
    /// pending events.
    ///
    /// The entitlement is merged into the work date's daily row, and the created events are
    /// accounted there. Event `n` of a work date has the id `{cycle}:{work date}:{n}` and
    /// the type of the `10 * n`-second boundary.
    #[verifier::spinoff_prover]
    #[verifier::rlimit(50)]
    pub(crate) fn materialize_live_rewards_transaction(
        &mut self,
        cycle_id: &str,
        work_date: Date,
        entitled: RewardCounts,
        values: RewardValues,
        pending_cap: u64,
        created_at: Instant,
    ) -> (res: Result<Vec<LiveRewardEvent>, PersistenceError>)
        requires
            entitled.le(full_day_counts()),
            is_event_prefix(entitled),
        ensures
            materialize_outcome(*old(self), *final(self), cycle_id@, work_date, entitled, values, pending_cap, created_at, res),
    {
        proof {
            use_type_invariant(&*self);
        }
        let ghost old_events = self.events_view();
        let ghost old_daily = self.daily_view();
        let o = self.daily_reward_state(cycle_id, work_date);
        let zero = RewardCounts { silver: 0, gold: 0, diamond: 0 };
        let (entitled_m, accounted, collected, updated) = match &o {
            Some(st) => (max_counts(st.entitled, entitled), st.accounted, st.collected, latest(st.updated_at, created_at)),
            None => (entitled, zero, zero, created_at),
        };
        let a = accounted.total_events();
        let prefix = RewardCounts::from_work_seconds(a * 10);
        if !(prefix == accounted) {
            return Err(PersistenceError::InvariantViolation("accounted rewards are not a deterministic event prefix"));
        }
        let pending = self.pending_count(cycle_id);
        let capacity = pending_cap.saturating_sub(pending);
        let e = entitled.total_events();
        let room = e.saturating_sub(a);
        let k = if room < capacity { room } else { capacity };
        let fresh = match self.build_fresh_events(cycle_id, work_date, a, k, values, created_at) {
            Some(f) => f,
            None => {
                return Err(PersistenceError::InvariantViolation(
                    "deterministic live reward event already exists outside accounted prefix",
                ));
            },
        };
        let new_accounted = RewardCounts::from_work_seconds((a + k) * 10);
        proof {
            lemma_materialized_counts(accounted, entitled, entitled_m, o, a as int, k as int, e as int);
        }
        let row = DailyRewardState {
            cycle_id: cycle_id.to_string(),
            work_date,
            entitled: entitled_m,
            accounted: new_accounted,
            collected,
            updated_at: if k > 0 { created_at } else { updated },
        };
        let mut writes: Vec<DailyRewardState> = Vec::new();
        writes.push(row);
        self.write_daily_rows(&writes);
        proof {
            assert forall|c: Seq<char>, dd: int| #[trigger] daily_after_writes(old_daily, writes@, c, dd) == if daily_key(row, c, dd) {
                Some(row)
            } else {
                daily_lookup(old_daily, c, dd)
            } by {
                assert(writes@.len() == 1);
                assert(writes@.last() == row);
                assert(writes@.drop_last() == Seq::<DailyRewardState>::empty());
                assert(daily_after_writes(old_daily, Seq::<DailyRewardState>::empty(), c, dd) == daily_lookup(old_daily, c, dd));
            }
        }
        let ghost mid_events = self.events_view();
        self.add_events(&fresh);
        proof {
            assert forall|i: int| 0 <= i < fresh@.len() implies pending_in(#[trigger] fresh@[i], cycle_id@) == 1 by {
                assert(fresh_event(fresh@[i], cycle_id@, work_date@, a + i + 1, values, created_at));
            }
            lemma_count_pending_all(fresh@, cycle_id@);
            assert(count_pending_of(self.events_view(), cycle_id@) == count_pending_of(mid_events, cycle_id@)
                + count_pending_of(fresh@, cycle_id@));
            lemma_materialized_events(self.events_view(), old_events, fresh@, cycle_id@, work_date@, a as int, k as int, values, created_at);
        }
        Ok(self.pending_live_rewards(cycle_id))
    }
}

impl LedgerStore {
    /// The pending events `a + 1 ..= a + k` of a cycle's work date; `None` when one of their
    /// ids is already in use.
    fn build_fresh_events(
        &self,
        cycle_id: &str,
        work_date: Date,
        a: u64,
        k: u64,
        values: RewardValues,
        created_at: Instant,
    ) -> (res: Option<Vec<LiveRewardEvent>>)
        requires
            a + k <= 2520,
        ensures
            res is None <==> !event_ids_free(self.events_view(), cycle_id@, work_date@, a as int, k as int),
            res matches Some(fresh) ==> {
                &&& fresh@.len() == k
                &&& events_unique(fresh@)
                &&& forall|i: int|
                    0 <= i < k ==> fresh_event(
                        #[trigger] fresh@[i],
                        cycle_id@,
                        work_date@,
                        a + i + 1,
                        values,
                        created_at,
                    )
                &&& forall|i: int|
                    0 <= i < k ==> event_lookup(self.events_view(), (#[trigger] fresh@[i]).event_id@) is None
            },
    {
        let ghost old_events = self.events_view();
        let date_text = work_date.to_text();
        let head = concat(concat(cycle_id, ":").as_str(), date_text.as_str());
        let head = concat(head.as_str(), ":");
        let mut fresh: Vec<LiveRewardEvent> = Vec::new();
        let mut j: u64 = 0;
        while j < k
            invariant
                j <= k,
                a + k <= 2520,
                head@ == cycle_id@ + ":"@ + spec_date_text(work_date@) + ":"@,
                old_events == self.events_view(),
                fresh@.len() == j,
                events_unique(fresh@),
                forall|i: int| 0 <= i < j ==> fresh_event(#[trigger] fresh@[i], cycle_id@, work_date@, a + i + 1, values, created_at),
                forall|i: int| 0 <= i < j ==> event_lookup(old_events, (#[trigger] fresh@[i]).event_id@) is None,
                event_ids_free(old_events, cycle_id@, work_date@, a as int, j as int),
            decreases k - j,
        {
            let idx = a + j + 1;
            let reward_type = match RewardType::for_event_index(idx) {
                Some(t) => t,
                None => {
                    return None;
                },
            };
            let id = concat(head.as_str(), u64_text(idx).as_str());
            assert(id@ == event_id_text(cycle_id@, work_date@, idx as int));
            if self.find_event(id.as_str()).is_some() || Self::id_among(&fresh, id.as_str()) {
                proof {
                    if exists|i: int| 0 <= i < fresh@.len() && (#[trigger] fresh@[i]).event_id@ == id@ {
                        let i = choose|i: int| 0 <= i < fresh@.len() && (#[trigger] fresh@[i]).event_id@ == id@;
                        assert(fresh_event(fresh@[i], cycle_id@, work_date@, a + i + 1, values, created_at));
                        assert(event_id_text(cycle_id@, work_date@, a + (i + 1)) == event_id_text(cycle_id@, work_date@, a + (j + 1)));
                    } else {
                        assert(event_lookup(old_events, event_id_text(cycle_id@, work_date@, a + (j + 1))) is Some);
                    }
                    lemma_ids_free_prefix(old_events, cycle_id@, work_date@, a as int, j + 1, k as int);
                }
                return None;
            }
            let ghost before = fresh@;
            let ev = LiveRewardEvent {
                event_id: id,
                cycle_id: cycle_id.to_string(),
                work_date,
                effective_second_boundary: idx * 10,
                event_index: idx,
                reward_type,
                status: LiveRewardStatus::Pending,
                exact_value: values.value_for(reward_type),
                created_at,
                collected_at: None,
                packaged_bag_id: None,
            };
            fresh.push(ev);
            proof {
                assert(fresh@ == before.push(ev));
                assert forall|p: int, q: int| 0 <= p < q < fresh@.len() implies (#[trigger] fresh@[p]).event_id@
                    != (#[trigger] fresh@[q]).event_id@ by {
                    if q < before.len() {
                        assert(before[p].event_id@ != before[q].event_id@);
                    } else {
                        assert(fresh@[p] == before[p]);
                    }
                }
                assert forall|p: int, q: int|
                    1 <= p < q <= j + 1 implies #[trigger] event_id_text(cycle_id@, work_date@, a + p) != #[trigger] event_id_text(
                        cycle_id@,
                        work_date@,
                        a + q,
                    ) by {
                    if q <= j {
                    } else {
                        assert(fresh_event(before[p - 1], cycle_id@, work_date@, a + (p - 1) + 1, values, created_at));
                    }
                }
            }
            j = j + 1;
        }
        Some(fresh)
    }
}

impl LedgerStore {
    /// The cycles with pending events, each once, in the order of their first pending event.
    fn pending_cycle_ids(&self) -> (res: Vec<String>)
        ensures
            res@.map_values(|s: String| s@) == pending_cycles(self.events_view()),
    {
        let ghost s = self.events@;
        let mut out: Vec<String> = Vec::new();
        let mut i: usize = 0;
        assert(s.take(0) == Seq::<LiveRewardEvent>::empty());
        assert(out@.map_values(|x: String| x@) == Seq::<Seq<char>>::empty());
        while i < self.events.len()
            invariant
                s == self.events@,
                i <= s.len(),
                out@.map_values(|x: String| x@) == pending_cycles(s.take(i as int)),
            decreases s.len() - i,
        {
            proof {
                assert(s.take(i + 1).drop_last() == s.take(i as int));
                assert(s.take(i + 1).last() == s[i as int]);
            }
            if self.events[i].status == LiveRewardStatus::Pending {
                let c = self.events[i].cycle_id.as_str();
                let mut k: usize = 0;
                let mut seen = false;
                while k < out.len()
                    invariant
                        k <= out@.len(),
                        !seen ==> forall|m: int| 0 <= m < k ==> (#[trigger] out@[m])@ != c@,
                        seen ==> out@.map_values(|x: String| x@).contains(c@),
                    decreases out@.len() - k,
                {
                    if text_eq(out[k].as_str(), c) {
                        proof {
                            assert(out@.map_values(|x: String| x@)[k as int] == c@);
                        }
                        seen = true;
                    }
                    k = k + 1;
                }
                if !seen {
                    let ghost before = out@;
                    let ghost bm = before.map_values(|x: String| x@);
                    let mut pos: usize = 0;
                    let mut k: usize = 0;
                    assert(bm.take(0) == Seq::<Seq<char>>::empty());
                    while k < out.len()
                        invariant
                            out@ == before,
                            bm == before.map_values(|x: String| x@),
                            k <= out@.len(),
                            pos <= k,
                            pos == count_before(bm.take(k as int), c@),
                        decreases out@.len() - k,
                    {
                        proof {
                            assert(bm.take(k + 1).drop_last() == bm.take(k as int));
                            assert(bm.take(k + 1).last() == out@[k as int]@);
                        }
                        if text_less(out[k].as_str(), c) {
                            pos = pos + 1;
                        }
                        k = k + 1;
                    }
                    assert(bm.take(k as int) == bm);
                    out.insert(pos, self.events[i].cycle_id.clone());
                    proof {
                        assert(!bm.contains(c@)) by {
                            if bm.contains(c@) {
                                let m = choose|m: int| 0 <= m < bm.len() && bm[m] == c@;
                                assert(before[m]@ == c@);
                            }
                        }
                        assert(out@.map_values(|x: String| x@) == bm.insert(pos as int, c@));
                    }
                }
            }
            i = i + 1;
        }
        assert(s.take(i as int) == s);
        out
    }

    /// What packaging the pending events of a cycle yields: the events, their counts, their
    /// exact value, the start of the bag's period and the counts per work date.
    fn package_plan(&self, cycle_id: &str, at: Instant) -> (res: Result<
        (Vec<LiveRewardEvent>, RewardCounts, Money, Instant, Vec<(Date, RewardCounts)>),
        PersistenceError,
    >)
        ensures
            ({
                let p = pending_of(self.events_view(), cycle_id@);
                match res {
                    Ok(plan) => {
                        &&& plan.0@ == p
                        &&& plan.1.spec_triple() == unit_sum(p)
                        &&& plan.2@ == value_sum(p)
                        &&& plan.3@ == earliest_created(p, at@)
                        &&& plan.4@.map_values(|x: (Date, RewardCounts)| (x.0@, x.1.spec_triple())) == date_groups(p)
                    },
                    Err(e) => (e == PersistenceError::CountOutOfRange && !triple_fits_u64(unit_sum(p))) || (e
                        == PersistenceError::ValueOutOfRange && !values_in_range(p)),
                }
            }),
    {
        let pend = self.pending_live_rewards(cycle_id);
        let ghost p = pend@;
        let mut counts = RewardCounts { silver: 0, gold: 0, diamond: 0 };
        let mut value = Money::zero();
        let mut start = at;
        let mut groups: Vec<(Date, RewardCounts)> = Vec::new();
        let mut i: usize = 0;
        assert(p.take(0) == Seq::<LiveRewardEvent>::empty());
        assert(groups@.map_values(|x: (Date, RewardCounts)| (x.0@, x.1.spec_triple())) == Seq::<(int, (int, int, int))>::empty());
        while i < pend.len()
            invariant
                p == pend@,
                p == pending_of(self.events_view(), cycle_id@),
                i <= p.len(),
                counts.spec_triple() == unit_sum(p.take(i as int)),
                value@ == value_sum(p.take(i as int)),
                start@ == earliest_created(p.take(i as int), at@),
                groups@.map_values(|x: (Date, RewardCounts)| (x.0@, x.1.spec_triple())) == date_groups(p.take(i as int)),
                forall|g: int| 0 <= g < groups@.len() ==> (#[trigger] groups@[g]).1.le(counts),
            decreases p.len() - i,
        {
            let ev = &pend[i];
            let ghost t1 = p.take(i + 1);
            proof {
                assert(t1.drop_last() == p.take(i as int));
                assert(t1.last() == p[i as int]);
            }
            let unit = ev.reward_type.counts();
            counts = match checked_add_counts(counts, unit) {
                Ok(c) => c,
                Err(e) => {
                    proof {
                        assert(unit_sum(t1) == counts_sum(unit_sum(p.take(i as int)), p[i as int].reward_type.unit_triple()));
                        assert(!triple_fits_u64(unit_sum(t1)));
                        lemma_unit_sum_bounds(p, i + 1);
                        assert(!triple_fits_u64(unit_sum(p)));
                    }
                    return Err(e);
                },
            };
            value = match value.checked_add(ev.exact_value) {
                Some(v) => v,
                None => {
                    proof {
                        assert(!sum_within_range(value_sum(p.take(i as int)), p[i as int].exact_value@));
                        assert(!values_in_range(t1));
                        if values_in_range(p) {
                            lemma_values_in_range_prefix(p, i + 1);
                        }
                    }
                    return Err(PersistenceError::ValueOutOfRange);
                },
            };
            start = start.earliest(ev.created_at);
            let ghost gview = groups@.map_values(|x: (Date, RewardCounts)| (x.0@, x.1.spec_triple()));
            let n = groups.len();
            if n > 0 && groups[n - 1].0.same_day(&ev.work_date) {
                let last = groups[n - 1].1;
                let merged = RewardCounts {
                    silver: last.silver + unit.silver,
                    gold: last.gold + unit.gold,
                    diamond: last.diamond + unit.diamond,
                };
                groups.set(n - 1, (ev.work_date, merged));
                proof {
                    assert(groups@.map_values(|x: (Date, RewardCounts)| (x.0@, x.1.spec_triple())) == gview.update(
                        n - 1,
                        (ev.work_date@, counts_sum(gview.last().1, ev.reward_type.unit_triple())),
                    ));
                }
            } else {
                groups.push((ev.work_date, unit));
                proof {
                    assert(groups@.map_values(|x: (Date, RewardCounts)| (x.0@, x.1.spec_triple())) == gview.push(
                        (ev.work_date@, ev.reward_type.unit_triple()),
                    ));
                }
            }
            i = i + 1;
        }
        assert(p.take(i as int) == p);
        Ok((pend, counts, value, start, groups))
    }
}

impl LedgerStore {
    /// Marks every pending event packaged into the bag of its cycle.
    fn mark_packaged(&mut self, bags: &Vec<OfflineRewardBag>)
        requires
            forall|a: int, b: int|
                0 <= a < b < bags@.len() ==> (#[trigger] bags@[a]).cycle_id@ != (#[trigger] bags@[b]).cycle_id@,
            forall|j: int|
                0 <= j < old(self).events_view().len() && (#[trigger] old(self).events_view()[j]).status
                    == LiveRewardStatus::Pending ==> exists|i: int|
                    0 <= i < bags@.len() && (#[trigger] bags@[i]).cycle_id@ == old(self).events_view()[j].cycle_id@,
        ensures
            final(self).events_view().len() == old(self).events_view().len(),
            forall|j: int|
                0 <= j < old(self).events_view().len() ==> after_packaging(
                    #[trigger] final(self).events_view()[j],
                    old(self).events_view()[j],
                    bags@,
                ),
            forall|j: int|
                0 <= j < final(self).events_view().len() ==> (#[trigger] final(self).events_view()[j]).status
                    != LiveRewardStatus::Pending,
            forall|id: Seq<char>|
                match #[trigger] event_lookup(old(self).events_view(), id) {
                    None => event_lookup(final(self).events_view(), id) is None,
                    Some(e) => event_lookup(final(self).events_view(), id) is Some && after_packaging(
                        event_lookup(final(self).events_view(), id).unwrap(),
                        e,
                        bags@,
                    ),
                },
            final(self).same_rows_but_events(*old(self)),
    {
        proof {
            use_type_invariant(&*self);
        }
        let ghost e0 = self.events@;
        let mut events: Vec<LiveRewardEvent> = Vec::new();
        std::mem::swap(&mut events, &mut self.events);
        let mut j: usize = 0;
        while j < events.len()
            invariant
                forall|a: int, b: int|
                    0 <= a < b < bags@.len() ==> (#[trigger] bags@[a]).cycle_id@ != (#[trigger] bags@[b]).cycle_id@,
                forall|jj: int|
                    0 <= jj < e0.len() && (#[trigger] e0[jj]).status == LiveRewardStatus::Pending ==> exists|i: int|
                        0 <= i < bags@.len() && (#[trigger] bags@[i]).cycle_id@ == e0[jj].cycle_id@,
                events@.len() == e0.len(),
                j <= e0.len(),
                events_unique(events@),
                events_sorted(events@),
                forall|k: int| 0 <= k < j ==> after_packaging(#[trigger] events@[k], e0[k], bags@),
                forall|k: int| 0 <= k < j ==> (#[trigger] events@[k]).status != LiveRewardStatus::Pending,
                forall|k: int| j <= k < e0.len() ==> #[trigger] events@[k] == e0[k],
                forall|k: int| 0 <= k < e0.len() ==> (#[trigger] events@[k]).event_id == e0[k].event_id,
            decreases e0.len() - j,
        {
            if events[j].status == LiveRewardStatus::Pending {
                let ev = events[j].clone();
                let mut i: usize = 0;
                while i < bags.len() && !text_eq(bags[i].cycle_id.as_str(), ev.cycle_id.as_str())
                    invariant
                        i <= bags@.len(),
                        forall|m: int| 0 <= m < i ==> (#[trigger] bags@[m]).cycle_id@ != ev.cycle_id@,
                    decreases bags@.len() - i,
                {
                    i = i + 1;
                }
                proof {
                    assert(e0[j as int] == ev);
                    let w = choose|w: int| 0 <= w < bags@.len() && (#[trigger] bags@[w]).cycle_id@ == ev.cycle_id@;
                    assert(i < bags@.len());
                    let b = bag_of_cycle(bags@, ev.cycle_id@);
                    if b != i {
                        if b < i {
                            assert(bags@[b].cycle_id@ != bags@[i as int].cycle_id@);
                        } else {
                            assert(bags@[i as int].cycle_id@ != bags@[b].cycle_id@);
                        }
                    }
                }
                let packaged = LiveRewardEvent {
                    event_id: ev.event_id.clone(),
                    cycle_id: ev.cycle_id.clone(),
                    work_date: ev.work_date,
                    effective_second_boundary: ev.effective_second_boundary,
                    event_index: ev.event_index,
                    reward_type: ev.reward_type,
                    status: LiveRewardStatus::Packaged,
                    exact_value: ev.exact_value,
                    created_at: ev.created_at,
                    collected_at: ev.collected_at,
                    packaged_bag_id: Some(bags[i].bag_id.clone()),
                };
                set_event(&mut events, j, packaged);
            }
            j = j + 1;
        }
        proof {
            lemma_events_after_packaging(events@, e0, bags@);
        }
        std::mem::swap(&mut events, &mut self.events);
    }

    /// Whether one of `bags` has the id.
    fn bag_id_among(bags: &Vec<OfflineRewardBag>, id: &str) -> (res: bool)
        ensures
            res == exists|i: int| 0 <= i < bags@.len() && (#[trigger] bags@[i]).bag_id@ == id@,
    {
        let mut i: usize = 0;
        while i < bags.len()
            invariant
                i <= bags@.len(),
                forall|j: int| 0 <= j < i ==> (#[trigger] bags@[j]).bag_id@ != id@,
            decreases bags@.len() - i,
        {
            if text_eq(bags[i].bag_id.as_str(), id) {
                return true;
            }
            i = i + 1;
        }
        false
    }

    /// Packages every pending live event into one unclaimed bag per cycle (with one item
    /// per work date), marks the events packaged into it, and returns the bags.
    pub(crate) fn package_pending_live_rewards_transaction(&mut self, packaged_at: Instant) -> (res: Result<
        Vec<OfflineRewardBag>,
        PersistenceError,
    >)
        ensures
            package_outcome(*old(self), *final(self), packaged_at, res),
            exists|ids: Seq<Seq<char>>| #[trigger]
                packaged_with_ids(*old(self), *final(self), ids, packaged_at, res),
    {
        let count = self.pending_cycle_ids().len();
        let mut ids: Vec<String> = Vec::new();
        let mut k: usize = 0;
        while k < count
            invariant
                k <= count,
                ids@.len() == k,
            decreases count - k,
        {
            ids.push(new_uuid());
            k = k + 1;
        }
        let res = self.package_pending_live_rewards_with_ids(&ids, packaged_at);
        assert(packaged_with_ids(*old(self), *self, ids@.map_values(|s: String| s@), packaged_at, res));
        res
    }

    /// Packages every pending live event into one offline bag per cycle, the bag of the
    /// `i`-th cycle (by cycle id) under the `i`-th of `ids`.
    #[verifier::rlimit(40)]
    pub fn package_pending_live_rewards_with_ids(&mut self, ids: &Vec<String>, packaged_at: Instant) -> (res: Result<
        Vec<OfflineRewardBag>,
        PersistenceError,
    >)
        requires
            ids@.len() == pending_cycles(old(self).events_view()).len(),
        ensures
            packaged_with_ids(*old(self), *final(self), ids@.map_values(|s: String| s@), packaged_at, res),
    {
        proof {
            use_type_invariant(&*self);
            lemma_pending_cycles_facts(self.events@);
        }
        let ghost old_events = self.events_view();
        let ghost cycles_spec = pending_cycles(old_events);
        let ghost idv = ids@.map_values(|s: String| s@);
        let cycles = self.pending_cycle_ids();
        let mut bags: Vec<OfflineRewardBag> = Vec::new();
        let mut added: Vec<OfflineRewardBagItem> = Vec::new();
        let mut c: usize = 0;
        while c < cycles.len()
            invariant
                *self == *old(self),
                idv == ids@.map_values(|s: String| s@),
                idv.len() == cycles_spec.len(),
                forall|i: int| 0 <= i < c ==> (#[trigger] bags@[i]).bag_id@ == idv[i],
                old_events == self.events_view(),
                cycles_spec == pending_cycles(old_events),
                cycles@.map_values(|s: String| s@) == cycles_spec,
                c <= cycles@.len(),
                bags@.len() == c,
                bags_unique(bags@),
                forall|i: int|
                    0 <= i < c ==> package_bag(
                        #[trigger] bags@[i],
                        cycles_spec[i],
                        pending_of(old_events, cycles_spec[i]),
                        packaged_at,
                    ),
                forall|i: int| 0 <= i < c ==> bag_lookup(self.bags_view(), (#[trigger] bags@[i]).bag_id@) is None,
                forall|k: int|
                    0 <= k < added@.len() ==> exists|i: int|
                        0 <= i < c && (#[trigger] bags@[i]).bag_id@ == (#[trigger] added@[k]).bag_id@,
                forall|i: int|
                    0 <= i < c ==> bag_items_of(added@, (#[trigger] bags@[i]).bag_id@).map_values(
                        |it: OfflineRewardBagItem| (it.work_date@, it.counts.spec_triple()),
                    ) == date_groups(pending_of(old_events, cycles_spec[i])),
            decreases cycles@.len() - c,
        {
            proof {
                assert(cycles@.map_values(|s: String| s@)[c as int] == cycles@[c as int]@);
            }
            let plan = match self.package_plan(cycles[c].as_str(), packaged_at) {
                Ok(p) => p,
                Err(e) => {
                    return Err(e);
                },
            };
            let (events_of, counts, value, start, groups) = plan;
            match counts_to_sql(counts) {
                Ok(_) => {},
                Err(e) => {
                    return Err(e);
                },
            }
            proof {
                assert(ids@.map_values(|s: String| s@)[c as int] == ids@[c as int]@);
            }
            let bag_id = ids[c].clone();
            if self.find_bag(bag_id.as_str()).is_some() || Self::bag_id_among(&bags, bag_id.as_str()) {
                return Err(PersistenceError::DuplicateId(bag_id));
            }
            let bag = OfflineRewardBag {
                bag_id: bag_id.clone(),
                cycle_id: cycles[c].clone(),
                period_start: start,
                period_end: packaged_at,
                counts,
                exact_value: value,
                created_at: packaged_at,
                claimed: false,
                claimed_at: None,
            };
            let ghost added0 = added@;
            let mut g: usize = 0;
            assert(groups@.take(0) == Seq::<(Date, RewardCounts)>::empty());
            assert(bag_items_of(added0, bag_id@) == Seq::<OfflineRewardBagItem>::empty()) by {
                reveal(Seq::filter);
                assert forall|k: int| 0 <= k < added0.len() implies (#[trigger] added0[k]).bag_id@ != bag_id@ by {
                    let i = choose|i: int| 0 <= i < c && (#[trigger] bags@[i]).bag_id@ == added0[k].bag_id@;
                }
                lemma_filter_none(added0, bag_id@);
            }
            while g < groups.len()
                invariant
                    g <= groups@.len(),
                    added@.len() == added0.len() + g,
                    added@.subrange(0, added0.len() as int) == added0,
                    forall|k: int| added0.len() <= k < added@.len() ==> (#[trigger] added@[k]).bag_id@ == bag_id@,
                    forall|i: int|
                        0 <= i < c ==> bag_items_of(added@, (#[trigger] bags@[i]).bag_id@) == bag_items_of(
                            added0,
                            bags@[i].bag_id@,
                        ),
                    forall|i: int| 0 <= i < c ==> (#[trigger] bags@[i]).bag_id@ != bag_id@,
                    bag_items_of(added@, bag_id@).map_values(
                        |it: OfflineRewardBagItem| (it.work_date@, it.counts.spec_triple()),
                    ) == groups@.take(g as int).map_values(|x: (Date, RewardCounts)| (x.0@, x.1.spec_triple())),
                decreases groups@.len() - g,
            {
                let item = OfflineRewardBagItem { bag_id: bag_id.clone(), work_date: groups[g].0, counts: groups[g].1 };
                let ghost before = added@;
                added.push(item);
                proof {
                    reveal(Seq::filter);
                    assert(added@.drop_last() == before);
                    assert(added@.last() == item);
                    assert(groups@.take(g + 1).drop_last() == groups@.take(g as int));
                    assert(groups@.take(g + 1).map_values(|x: (Date, RewardCounts)| (x.0@, x.1.spec_triple()))
                        == groups@.take(g as int).map_values(|x: (Date, RewardCounts)| (x.0@, x.1.spec_triple())).push(
                        (groups@[g as int].0@, groups@[g as int].1.spec_triple()),
                    ));
                    assert(bag_items_of(added@, bag_id@) == bag_items_of(before, bag_id@).push(item));
                }
                g = g + 1;
            }
            proof {
                assert(groups@.take(g as int) == groups@);
            }
            let ghost bags0 = bags@;
            bags.push(bag);
            proof {
                assert forall|a: int, b: int| 0 <= a < b < bags@.len() implies (#[trigger] bags@[a]).bag_id@
                    != (#[trigger] bags@[b]).bag_id@ by {
                    if b < c {
                        assert(bags0[a].bag_id@ != bags0[b].bag_id@);
                    }
                }
                assert forall|k: int| 0 <= k < added@.len() implies exists|i: int|
                    0 <= i < c + 1 && (#[trigger] bags@[i]).bag_id@ == (#[trigger] added@[k]).bag_id@ by {
                    if k < added0.len() {
                        assert(added@[k] == added0[k]);
                        let i = choose|i: int| 0 <= i < c && (#[trigger] bags0[i]).bag_id@ == added0[k].bag_id@;
                        assert(bags@[i] == bags0[i]);
                    } else {
                        assert(bags@[c as int] == bag);
                    }
                }
            }
            c = c + 1;
        }
        proof {
            assert forall|a: int, b: int|
                0 <= a < b < bags@.len() implies (#[trigger] bags@[a]).cycle_id@ != (#[trigger] bags@[b]).cycle_id@ by {
                assert(cycles_spec[a] != cycles_spec[b]);
            }
            assert forall|j: int|
                0 <= j < old_events.len() && (#[trigger] old_events[j]).status == LiveRewardStatus::Pending
                    implies exists|i: int| 0 <= i < bags@.len() && (#[trigger] bags@[i]).cycle_id@ == old_events[j].cycle_id@ by {
                assert(cycles_spec.contains(old_events[j].cycle_id@));
                let i = choose|i: int| 0 <= i < cycles_spec.len() && cycles_spec[i] == old_events[j].cycle_id@;
                assert(bags@[i].cycle_id@ == cycles_spec[i]);
            }
        }
        let ghost old_bags = self.bags_view();
        let ghost old_items = self.items_view();
        let ghost added_all = added@;
        proof {
            assert(ids_fresh(old_bags, idv)) by {
                assert forall|i: int| 0 <= i < idv.len() implies bag_lookup(old_bags, #[trigger] idv[i]) is None
                    && forall|j: int| 0 <= j < i ==> idv[j] != idv[i] by {
                    assert(bags@[i].bag_id@ == idv[i]);
                    assert forall|j: int| 0 <= j < i implies idv[j] != idv[i] by {
                        assert(bags@[j].bag_id@ == idv[j]);
                    }
                }
            }
        }
        self.add_new_bags(&bags);
        self.append_items(&mut added);
        self.mark_packaged(&bags);
        proof {
            assert(self.items_view().subrange(0, old_items.len() as int) == old_items);
            assert(self.items_view().skip(old_items.len() as int) == added_all);
        }
        Ok(bags)
    }

    /// Adds bags with fresh, distinct ids.
    fn add_new_bags(&mut self, bags: &Vec<OfflineRewardBag>)
        requires
            bags_unique(bags@),
            forall|i: int| 0 <= i < bags@.len() ==> bag_lookup(old(self).bags_view(), (#[trigger] bags@[i]).bag_id@) is None,
        ensures
            forall|i: int| 0 <= i < bags@.len() ==> bag_lookup(final(self).bags_view(), (#[trigger] bags@[i]).bag_id@) == Some(bags@[i]),
            forall|id: Seq<char>|
                (forall|i: int| 0 <= i < bags@.len() ==> (#[trigger] bags@[i]).bag_id@ != id)
                    ==> #[trigger] bag_lookup(final(self).bags_view(), id) == bag_lookup(old(self).bags_view(), id),
            final(self).bags_view().len() == old(self).bags_view().len() + bags@.len(),
            final(self).same_rows_but_bags(*old(self)),
    {
        let mut m: usize = 0;
        while m < bags.len()
            invariant
                m <= bags@.len(),
                bags_unique(bags@),
                forall|i: int| 0 <= i < bags@.len() ==> bag_lookup(old(self).bags_view(), (#[trigger] bags@[i]).bag_id@) is None,
                forall|i: int| 0 <= i < m ==> bag_lookup(self.bags_view(), (#[trigger] bags@[i]).bag_id@) == Some(bags@[i]),
                forall|i: int| m <= i < bags@.len() ==> bag_lookup(self.bags_view(), (#[trigger] bags@[i]).bag_id@) is None,
                forall|id: Seq<char>|
                    (forall|i: int| 0 <= i < bags@.len() ==> (#[trigger] bags@[i]).bag_id@ != id)
                        ==> #[trigger] bag_lookup(self.bags_view(), id) == bag_lookup(old(self).bags_view(), id),
                self.bags_view().len() == old(self).bags_view().len() + m,
                self.same_rows_but_bags(*old(self)),
            decreases bags@.len() - m,
        {
            let b = bags[m].clone();
            self.add_bag(b);
            proof {
                assert forall|i: int| m < i < bags@.len() implies bag_lookup(self.bags_view(), (#[trigger] bags@[i]).bag_id@) is None by {
                    assert(bags@[i].bag_id@ != bags@[m as int].bag_id@);
                }
                assert forall|i: int| 0 <= i < m implies bag_lookup(self.bags_view(), (#[trigger] bags@[i]).bag_id@) == Some(bags@[i]) by {
                    assert(bags@[i].bag_id@ != bags@[m as int].bag_id@);
                }
            }
            m = m + 1;
        }
    }
}

impl LedgerStore {
    /// Writes a setting: replaces the value of its key, or adds the key.
    fn put_setting(&mut self, key: &str, value: &str, updated_at: Instant)
        ensures
            forall|k: Seq<char>|
                #[trigger] setting_lookup(final(self).settings_view(), k) == if k == key@ {
                    Some(value@)
                } else {
                    setting_lookup(old(self).settings_view(), k)
                },
            final(self).same_rows_but_settings(*old(self)),
    {
        proof {
            use_type_invariant(&*self);
        }
        let found = self.find_setting(key);
        let ghost s0 = self.settings@;
        let mut settings: Vec<(String, String, Instant)> = Vec::new();
        std::mem::swap(&mut settings, &mut self.settings);
        let row = (key.to_string(), value.to_string(), updated_at);
        match found {
            Some(i) => {
                settings.set(i, row);
                proof {
                    let s1 = settings@;
                    assert forall|a: int, b: int| 0 <= a < b < s1.len() implies (#[trigger] s1[a]).0@ != (#[trigger] s1[b]).0@ by {
                        assert(s0[a].0@ != s0[b].0@);
                    }
                    lemma_setting_update(s0, i as int, row);
                }
            },
            None => {
                settings.push(row);
                proof {
                    let s1 = settings@;
                    assert forall|a: int, b: int| 0 <= a < b < s1.len() implies (#[trigger] s1[a]).0@ != (#[trigger] s1[b]).0@ by {
                        if b < s0.len() {
                            assert(s0[a].0@ != s0[b].0@);
                        }
                    }
                    lemma_setting_push(s0, row);
                }
            },
        }
        std::mem::swap(&mut settings, &mut self.settings);
    }

    /// Sets one setting; a blank key is refused.
    pub fn set_setting(&mut self, key: &str, value: &str, updated_at: Instant) -> (res: Result<(), PersistenceError>)
        ensures
            res is Err <==> key_is_blank(key@),
            has_word_char(key@) ==> res is Ok,
            res matches Err(e) ==> e == PersistenceError::EmptySettingKey && final(self).unchanged_from(*old(self)),
            res is Ok ==> forall|k: Seq<char>|
                #[trigger] setting_lookup(final(self).settings_view(), k) == if k == key@ {
                    Some(value@)
                } else {
                    setting_lookup(old(self).settings_view(), k)
                },
            res is Ok ==> final(self).same_rows_but_settings(*old(self)),
    {
        if is_blank(key) {
            return Err(PersistenceError::EmptySettingKey);
        }
        self.put_setting(key, value, updated_at);
        Ok(())
    }

    /// Sets several settings at once, later pairs winning over earlier ones with the same
    /// key; when any key is blank, nothing is set.
    pub fn set_settings(&mut self, settings: &[(String, String)], updated_at: Instant) -> (res: Result<
        (),
        PersistenceError,
    >)
        ensures
            res is Err <==> exists|i: int| 0 <= i < settings@.len() && key_is_blank((#[trigger] settings@[i]).0@),
            (forall|i: int| 0 <= i < settings@.len() ==> has_word_char((#[trigger] settings@[i]).0@)) ==> res is Ok,
            res matches Err(e) ==> e == PersistenceError::EmptySettingKey && final(self).unchanged_from(*old(self)),
            res is Ok ==> forall|k: Seq<char>|
                #[trigger] setting_lookup(final(self).settings_view(), k) == match last_value_for(settings@, k) {
                    Some(v) => Some(v),
                    None => setting_lookup(old(self).settings_view(), k),
                },
            res is Ok ==> final(self).same_rows_but_settings(*old(self)),
    {
        let mut i: usize = 0;
        while i < settings.len()
            invariant
                i <= settings@.len(),
                forall|j: int| 0 <= j < i ==> !key_is_blank((#[trigger] settings@[j]).0@),
            decreases settings@.len() - i,
        {
            if is_blank(settings[i].0.as_str()) {
                return Err(PersistenceError::EmptySettingKey);
            }
            i = i + 1;
        }
        let mut k: usize = 0;
        assert(settings@.take(0) == Seq::<(String, String)>::empty());
        while k < settings.len()
            invariant
                k <= settings@.len(),
                forall|key: Seq<char>|
                    #[trigger] setting_lookup(self.settings_view(), key) == match last_value_for(settings@.take(k as int), key) {
                        Some(v) => Some(v),
                        None => setting_lookup(old(self).settings_view(), key),
                    },
                self.same_rows_but_settings(*old(self)),
            decreases settings@.len() - k,
        {
            proof {
                assert(settings@.take(k + 1).drop_last() == settings@.take(k as int));
                assert(settings@.take(k + 1).last() == settings@[k as int]);
            }
            self.put_setting(settings[k].0.as_str(), settings[k].1.as_str(), updated_at);
            k = k + 1;
        }
        assert(settings@.take(k as int) == settings@);
        Ok(())
    }

    /// The offline reward bags of a cycle, or all of them, by creation time.
    pub fn offline_reward_bags(&self, cycle_id: Option<&str>) -> (res: Vec<OfflineRewardBag>)
        ensures
            res@ == bags_of(self.bags_view(), opt_text(cycle_id)),
    {
        let ghost s = self.bags@;
        let ghost c = opt_text(cycle_id);
        let mut out: Vec<OfflineRewardBag> = Vec::new();
        let mut i: usize = 0;
        assert(bags_of(s.take(0), c) == Seq::<OfflineRewardBag>::empty()) by {
            reveal(Seq::filter);
        }
        while i < self.bags.len()
            invariant
                s == self.bags@,
                c == opt_text(cycle_id),
                i <= s.len(),
                out@ == bags_of(s.take(i as int), c),
            decreases s.len() - i,
        {
            proof {
                reveal(Seq::filter);
                assert(s.take(i + 1).drop_last() == s.take(i as int));
                assert(s.take(i + 1).last() == s[i as int]);
            }
            let keep = match cycle_id {
                Some(id) => text_eq(self.bags[i].cycle_id.as_str(), id),
                None => true,
            };
            if keep {
                out.push(self.bags[i].clone());
            }
            i = i + 1;
        }
        assert(s.take(i as int) == s);
        out
    }

    /// The collection ledger entries of a cycle, or all of them, by creation time.
    pub fn collection_ledger(&self, cycle_id: Option<&str>) -> (res: Vec<CollectionLedgerEntry>)
        ensures
            res@ == ledger_of(self.ledger_view(), opt_text(cycle_id)),
    {
        let ghost s = self.ledger@;
        let ghost c = opt_text(cycle_id);
        let mut out: Vec<CollectionLedgerEntry> = Vec::new();
        let mut i: usize = 0;
        assert(ledger_of(s.take(0), c) == Seq::<CollectionLedgerEntry>::empty()) by {
            reveal(Seq::filter);
        }
        while i < self.ledger.len()
            invariant
                s == self.ledger@,
                c == opt_text(cycle_id),
                i <= s.len(),
                out@ == ledger_of(s.take(i as int), c),
            decreases s.len() - i,
        {
            proof {
                reveal(Seq::filter);
                assert(s.take(i + 1).drop_last() == s.take(i as int));
                assert(s.take(i + 1).last() == s[i as int]);
            }
            let keep = match cycle_id {
                Some(id) => text_eq(self.ledger[i].cycle_id.as_str(), id),
                None => true,
            };
            if keep {
                out.push(self.ledger[i].clone());
            }
            i = i + 1;
        }
        assert(s.take(i as int) == s);
        out
    }

    /// The totals of the collection ledger entries of a cycle, or of all of them.
    fn wallet_totals_for_cycle(&self, cycle_id: Option<&str>) -> (res: Result<WalletTotals, PersistenceError>)
        ensures
            ({
                let entries = ledger_of(self.ledger_view(), opt_text(cycle_id));
                match res {
                    Ok(t) => t.counts.spec_triple() == ledger_count_sums(entries) && t.exact_value@
                        == ledger_value_sum(entries),
                    Err(e) => (e == PersistenceError::CountOutOfRange && !triple_fits_u64(ledger_count_sums(entries)))
                        || (e == PersistenceError::ValueOutOfRange && !ledger_values_in_range(entries)),
                }
            }),
    {
        let entries = self.collection_ledger(cycle_id);
        let ghost s = entries@;
        let mut counts = RewardCounts { silver: 0, gold: 0, diamond: 0 };
        let mut value = Money::zero();
        let mut i: usize = 0;
        assert(s.take(0) == Seq::<CollectionLedgerEntry>::empty());
        while i < entries.len()
            invariant
                s == entries@,
                s == ledger_of(self.ledger_view(), opt_text(cycle_id)),
                i <= s.len(),
                counts.spec_triple() == ledger_count_sums(s.take(i as int)),
                value@ == ledger_value_sum(s.take(i as int)),
            decreases s.len() - i,
        {
            let ghost t1 = s.take(i + 1);
            proof {
                assert(t1.drop_last() == s.take(i as int));
                assert(t1.last() == s[i as int]);
            }
            counts = match checked_add_counts(counts, entries[i].counts) {
                Ok(c) => c,
                Err(e) => {
                    proof {
                        assert(!triple_fits_u64(ledger_count_sums(t1)));
                        lemma_ledger_sums_bounds(s, i + 1);
                    }
                    return Err(e);
                },
            };
            value = match value.checked_add(entries[i].exact_value) {
                Some(v) => v,
                None => {
                    proof {
                        assert(!sum_within_range(ledger_value_sum(s.take(i as int)), s[i as int].exact_value@));
                        assert(!ledger_values_in_range(t1));
                        if ledger_values_in_range(s) {
                            lemma_ledger_values_prefix(s, i + 1);
                        }
                    }
                    return Err(PersistenceError::ValueOutOfRange);
                },
            };
            i = i + 1;
        }
        assert(s.take(i as int) == s);
        Ok(WalletTotals { counts, exact_value: value })
    }

    /// The totals of the whole collection ledger.
    pub fn wallet_totals(&self) -> (res: Result<WalletTotals, PersistenceError>)
        ensures
            ({
                let entries = self.ledger_view();
                match res {
                    Ok(t) => t.counts.spec_triple() == ledger_count_sums(entries) && t.exact_value@
                        == ledger_value_sum(entries),
                    Err(e) => (e == PersistenceError::CountOutOfRange && !triple_fits_u64(ledger_count_sums(entries)))
                        || (e == PersistenceError::ValueOutOfRange && !ledger_values_in_range(entries)),
                }
            }),
    {
        proof {
            lemma_filter_all(self.ledger_view());
        }
        self.wallet_totals_for_cycle(None)
    }

    /// The totals of the collection ledger entries of a cycle.
    pub fn cycle_wallet_totals(&self, cycle_id: &str) -> (res: Result<WalletTotals, PersistenceError>)
        ensures
            ({
                let entries = ledger_of(self.ledger_view(), Some(cycle_id@));
                match res {
                    Ok(t) => t.counts.spec_triple() == ledger_count_sums(entries) && t.exact_value@
                        == ledger_value_sum(entries),
                    Err(e) => (e == PersistenceError::CountOutOfRange && !triple_fits_u64(ledger_count_sums(entries)))
                        || (e == PersistenceError::ValueOutOfRange && !ledger_values_in_range(entries)),
                }
            }),
    {
        self.wallet_totals_for_cycle(Some(cycle_id))
    }

    /// The number of live events of a status, or of all of them.
    pub fn live_reward_event_count(&self, status: Option<LiveRewardStatus>) -> (res: u64)
        ensures
            res == count_events_with(self.events_view(), status),
    {
        let ghost s = self.events@;
        let mut count: u64 = 0;
        let mut i: usize = 0;
        assert(s.take(0) == Seq::<LiveRewardEvent>::empty());
        while i < self.events.len()
            invariant
                s == self.events@,
                i <= s.len(),
                count <= i,
                count == count_events_with(s.take(i as int), status),
            decreases s.len() - i,
        {
            proof {
                assert(s.take(i + 1).drop_last() == s.take(i as int));
                assert(s.take(i + 1).last() == s[i as int]);
            }
            let counted = match status {
                Some(st) => self.events[i].status == st,
                None => true,
            };
            if counted {
                count = count + 1;
            }
            i = i + 1;
        }
        assert(s.take(i as int) == s);
        count
    }
}

impl LedgerStore {
    /// Whether a stored record holds the payroll snapshot of a cycle.
    fn snapshot_matches(
        r: &PayrollCycleRecord,
        cycle_id: &str,
        cycle: &PayrollCycle,
        rates: &PayRates,
        values: &RewardValues,
    ) -> (res: bool)
        requires
            (rates.daily@, rates.hourly@, rates.per_second@) == cycle.pay_rates_spec(),
            values.silver@ == decimal_quotient(cycle.pay_rates_spec().1, (WEIGHTED_UNITS_PER_HOUR as int, 0nat)),
            values.gold@ == decimal_product(values.silver@, (GOLD_WEIGHT as int, 0nat)),
            values.diamond@ == decimal_product(values.silver@, (DIAMOND_WEIGHT as int, 0nat)),
        ensures
            res == record_matches_cycle(*r, cycle_id@, *cycle),
    {
        let zone = cycle.timezone.name();
        text_eq(r.cycle_id.as_str(), cycle_id) && r.salary_month.same_day(&cycle.salary_month)
            && r.start_date.same_day(&cycle.start_date) && r.end_date.same_day(&cycle.end_date)
            && r.monthly_salary.num_eq(&cycle.monthly_salary) && r.workday_count == cycle.workday_count
            && r.daily_pay.num_eq(&rates.daily) && r.hourly_pay.num_eq(&rates.hourly)
            && r.per_second_pay.num_eq(&rates.per_second) && r.silver_value.num_eq(&values.silver)
            && r.gold_value.num_eq(&values.gold) && r.diamond_value.num_eq(&values.diamond) && text_eq(
            r.timezone.as_str(),
            zone.as_str(),
        ) && text_eq(r.calendar_version.as_str(), cycle.calendar_version.as_str())
    }

    /// Freezes the payroll snapshot of a cycle under its id, or confirms the one already
    /// frozen: a blank id is refused, and so is an id frozen with another snapshot.
    pub fn ensure_payroll_cycle(&mut self, cycle_id: &str, cycle: &PayrollCycle, created_at: Instant) -> (res:
        Result<PayrollCycleRecord, PersistenceError>)
        requires
            cycle.workday_count > 0,
        ensures
            ensure_outcome(*old(self), *final(self), cycle_id@, *cycle, created_at, res),
    {
        proof {
            use_type_invariant(&*self);
        }
        if is_blank(cycle_id) {
            return Err(PersistenceError::EmptyCycleId);
        }
        let rates = cycle.pay_rates();
        let values = RewardValues::for_cycle(cycle);
        match self.find_cycle(cycle_id) {
            Some(i) => {
                let existing = self.cycles[i].clone();
                if Self::snapshot_matches(&existing, cycle_id, cycle, &rates, &values) {
                    Ok(existing)
                } else {
                    Err(PersistenceError::CycleSnapshotConflict(cycle_id.to_string()))
                }
            },
            None => {
                let record = PayrollCycleRecord {
                    cycle_id: cycle_id.to_string(),
                    salary_month: cycle.salary_month,
                    start_date: cycle.start_date,
                    end_date: cycle.end_date,
                    monthly_salary: cycle.monthly_salary,
                    workday_count: cycle.workday_count,
                    daily_pay: rates.daily,
                    hourly_pay: rates.hourly,
                    per_second_pay: rates.per_second,
                    silver_value: values.silver,
                    gold_value: values.gold,
                    diamond_value: values.diamond,
                    timezone: cycle.timezone.name(),
                    calendar_version: cycle.calendar_version.clone(),
                    created_at,
                };
                proof {
                    assert(record_matches_cycle(record, cycle_id@, *cycle));
                }
                let ghost c0 = self.cycles@;
                let mut cycles: Vec<PayrollCycleRecord> = Vec::new();
                std::mem::swap(&mut cycles, &mut self.cycles);
                cycles.push(record.clone());
                proof {
                    let c1 = cycles@;
                    assert forall|a: int, b: int| 0 <= a < b < c1.len() implies (#[trigger] c1[a]).cycle_id@ != (#[trigger] c1[b]).cycle_id@ by {
                        if b < c0.len() {
                            assert(c0[a].cycle_id@ != c0[b].cycle_id@);
                        }
                    }
                    lemma_cycle_hit(c1, c0.len() as int, cycle_id@);
                }
                std::mem::swap(&mut cycles, &mut self.cycles);
                Ok(record)
            },
        }
    }
}

impl LedgerStore {
    fn keep_cycles(&self, c: &str) -> (res: Vec<PayrollCycleRecord>)
        ensures
            res@ == cycles_kept(self.cycles_view(), c@),
    {
        let ghost s = self.cycles@;
        let mut out: Vec<PayrollCycleRecord> = Vec::new();
        let mut i: usize = 0;
        assert(cycles_kept(s.take(0), c@) == Seq::<PayrollCycleRecord>::empty()) by {
            reveal(Seq::filter);
        }
        while i < self.cycles.len()
            invariant
                s == self.cycles@,
                i <= s.len(),
                out@ == cycles_kept(s.take(i as int), c@),
            decreases s.len() - i,
        {
            proof {
                reveal(Seq::filter);
                assert(s.take(i + 1).drop_last() == s.take(i as int));
                assert(s.take(i + 1).last() == s[i as int]);
            }
            if !text_eq(self.cycles[i].cycle_id.as_str(), c) {
                out.push(self.cycles[i].clone());
            }
            i = i + 1;
        }
        assert(s.take(i as int) == s);
        out
    }

    fn keep_daily(&self, c: &str) -> (res: Vec<DailyRewardState>)
        ensures
            res@ == daily_kept(self.daily_view(), c@),
    {
        let ghost s = self.daily@;
        let mut out: Vec<DailyRewardState> = Vec::new();
        let mut i: usize = 0;
        assert(daily_kept(s.take(0), c@) == Seq::<DailyRewardState>::empty()) by {
            reveal(Seq::filter);
        }
        while i < self.daily.len()
            invariant
                s == self.daily@,
                i <= s.len(),
                out@ == daily_kept(s.take(i as int), c@),
            decreases s.len() - i,
        {
            proof {
                reveal(Seq::filter);
                assert(s.take(i + 1).drop_last() == s.take(i as int));
                assert(s.take(i + 1).last() == s[i as int]);
            }
            if !text_eq(self.daily[i].cycle_id.as_str(), c) {
                out.push(self.daily[i].clone());
            }
            i = i + 1;
        }
        assert(s.take(i as int) == s);
        out
    }

    fn keep_bags(&self, c: &str) -> (res: Vec<OfflineRewardBag>)
        ensures
            res@ == bags_kept(self.bags_view(), c@),
    {
        let ghost s = self.bags@;
        let mut out: Vec<OfflineRewardBag> = Vec::new();
        let mut i: usize = 0;
        assert(bags_kept(s.take(0), c@) == Seq::<OfflineRewardBag>::empty()) by {
            reveal(Seq::filter);
        }
        while i < self.bags.len()
            invariant
                s == self.bags@,
                i <= s.len(),
                out@ == bags_kept(s.take(i as int), c@),
            decreases s.len() - i,
        {
            proof {
                reveal(Seq::filter);
                assert(s.take(i + 1).drop_last() == s.take(i as int));
                assert(s.take(i + 1).last() == s[i as int]);
            }
            if !text_eq(self.bags[i].cycle_id.as_str(), c) {
                out.push(self.bags[i].clone());
            }
            i = i + 1;
        }
        assert(s.take(i as int) == s);
        out
    }

    fn keep_events(&self, c: &str) -> (res: Vec<LiveRewardEvent>)
        ensures
            res@ == events_kept(self.events_view(), c@),
    {
        let ghost s = self.events@;
        let mut out: Vec<LiveRewardEvent> = Vec::new();
        let mut i: usize = 0;
        assert(events_kept(s.take(0), c@) == Seq::<LiveRewardEvent>::empty()) by {
            reveal(Seq::filter);
        }
        while i < self.events.len()
            invariant
                s == self.events@,
                i <= s.len(),
                out@ == events_kept(s.take(i as int), c@),
            decreases s.len() - i,
        {
            proof {
                reveal(Seq::filter);
                assert(s.take(i + 1).drop_last() == s.take(i as int));
                assert(s.take(i + 1).last() == s[i as int]);
            }
            if !text_eq(self.events[i].cycle_id.as_str(), c) {
                out.push(self.events[i].clone());
            }
            i = i + 1;
        }
        assert(s.take(i as int) == s);
        out
    }

    fn keep_ledger(&self, c: &str) -> (res: Vec<CollectionLedgerEntry>)
        ensures
            res@ == ledger_kept(self.ledger_view(), c@),
    {
        let ghost s = self.ledger@;
        let mut out: Vec<CollectionLedgerEntry> = Vec::new();
        let mut i: usize = 0;
        assert(ledger_kept(s.take(0), c@) == Seq::<CollectionLedgerEntry>::empty()) by {
            reveal(Seq::filter);
        }
        while i < self.ledger.len()
            invariant
                s == self.ledger@,
                i <= s.len(),
                out@ == ledger_kept(s.take(i as int), c@),
            decreases s.len() - i,
        {
            proof {
                reveal(Seq::filter);
                assert(s.take(i + 1).drop_last() == s.take(i as int));
                assert(s.take(i + 1).last() == s[i as int]);
            }
            if !text_eq(self.ledger[i].cycle_id.as_str(), c) {
                out.push(self.ledger[i].clone());
            }
            i = i + 1;
        }
        assert(s.take(i as int) == s);
        out
    }

    fn keep_items(&self, c: &str) -> (res: Vec<OfflineRewardBagItem>)
        ensures
            res@ == items_kept(self.items_view(), self.bags_view(), c@),
    {
        let ghost s = self.bag_items@;
        let ghost bags = self.bags_view();
        let mut out: Vec<OfflineRewardBagItem> = Vec::new();
        let mut i: usize = 0;
        assert(items_kept(s.take(0), bags, c@) == Seq::<OfflineRewardBagItem>::empty()) by {
            reveal(Seq::filter);
        }
        while i < self.bag_items.len()
            invariant
                s == self.bag_items@,
                bags == self.bags_view(),
                i <= s.len(),
                out@ == items_kept(s.take(i as int), bags, c@),
            decreases s.len() - i,
        {
            proof {
                reveal(Seq::filter);
                assert(s.take(i + 1).drop_last() == s.take(i as int));
                assert(s.take(i + 1).last() == s[i as int]);
            }
            let of_cycle = match self.find_bag(self.bag_items[i].bag_id.as_str()) {
                Some(b) => text_eq(self.bags[b].cycle_id.as_str(), c),
                None => false,
            };
            if !of_cycle {
                out.push(self.bag_items[i].clone());
            }
            i = i + 1;
        }
        assert(s.take(i as int) == s);
        out
    }

    /// Removes a payroll cycle frozen with a zero monthly salary, together with its daily
    /// rows, bags and their items, live events and ledger entries. A cycle with a non-zero
    /// salary is never removed. Returns whether a cycle was removed.
    pub fn remove_unconfigured_zero_cycle(&mut self, cycle_id: &str) -> (res: bool)
        ensures
            ({
                let found = cycle_lookup(old(self).cycles_view(), cycle_id@);
                &&& res <==> (found is Some && found.unwrap().monthly_salary@.0 == 0)
                &&& !res ==> final(self).unchanged_from(*old(self))
                &&& res ==> {
                    &&& final(self).cycles_view() == cycles_kept(old(self).cycles_view(), cycle_id@)
                    &&& final(self).daily_view() == daily_kept(old(self).daily_view(), cycle_id@)
                    &&& final(self).bags_view() == bags_kept(old(self).bags_view(), cycle_id@)
                    &&& final(self).items_view() == items_kept(
                        old(self).items_view(),
                        old(self).bags_view(),
                        cycle_id@,
                    )
                    &&& final(self).events_view() == events_kept(old(self).events_view(), cycle_id@)
                    &&& final(self).ledger_view() == ledger_kept(old(self).ledger_view(), cycle_id@)
                    &&& final(self).settings_view() == old(self).settings_view()
                }
            }),
    {
        proof {
            use_type_invariant(&*self);
        }
        let i = match self.find_cycle(cycle_id) {
            Some(i) => i,
            None => {
                return false;
            },
        };
        if !self.cycles[i].monthly_salary.is_zero() {
            return false;
        }
        let cycles = self.keep_cycles(cycle_id);
        let daily = self.keep_daily(cycle_id);
        let bags = self.keep_bags(cycle_id);
        let items = self.keep_items(cycle_id);
        let events = self.keep_events(cycle_id);
        let ledger = self.keep_ledger(cycle_id);
        proof {
            let cp = |r: PayrollCycleRecord| r.cycle_id@ != cycle_id@;
            let crel = |a: PayrollCycleRecord, b: PayrollCycleRecord| a.cycle_id@ != b.cycle_id@;
            assert forall|a: int, b: int| 0 <= a < b < self.cycles@.len() implies #[trigger] crel(self.cycles@[a], self.cycles@[b]) by {
                assert(self.cycles@[a].cycle_id@ != self.cycles@[b].cycle_id@);
            }
            lemma_filter_keeps_pairs(self.cycles@, cp, crel);
            assert forall|a: int, b: int| 0 <= a < b < cycles@.len() implies (#[trigger] cycles@[a]).cycle_id@ != (#[trigger] cycles@[b]).cycle_id@ by {
                assert(crel(cycles@[a], cycles@[b]));
            }
            let cq = |a: PayrollCycleRecord| a.workday_count > 0;
            assert forall|a: int| 0 <= a < self.cycles@.len() implies #[trigger] cq(self.cycles@[a]) by {
                assert(self.cycles@[a].workday_count > 0);
            }
            lemma_filter_keeps_all(self.cycles@, cp, cq);
            assert forall|a: int| 0 <= a < cycles@.len() implies (#[trigger] cycles@[a]).workday_count > 0 by {
                assert(cq(cycles@[a]));
            }
            let dp = |r: DailyRewardState| r.cycle_id@ != cycle_id@;
            let drel = |a: DailyRewardState, b: DailyRewardState| !daily_key(a, b.cycle_id@, b.work_date@);
            assert forall|a: int, b: int| 0 <= a < b < self.daily@.len() implies #[trigger] drel(self.daily@[a], self.daily@[b]) by {
                assert(!daily_key(self.daily@[a], self.daily@[b].cycle_id@, self.daily@[b].work_date@));
            }
            lemma_filter_keeps_pairs(self.daily@, dp, drel);
            assert forall|a: int, b: int| 0 <= a < b < daily@.len() implies !daily_key(
                #[trigger] daily@[a],
                daily@[b].cycle_id@,
                (#[trigger] daily@[b]).work_date@,
            ) by {
                assert(drel(daily@[a], daily@[b]));
            }
            let dq = |a: DailyRewardState| counts_ordered(a);
            assert forall|a: int| 0 <= a < self.daily@.len() implies #[trigger] dq(self.daily@[a]) by {
                assert(counts_ordered(self.daily@[a]));
            }
            lemma_filter_keeps_all(self.daily@, dp, dq);
            assert forall|a: int| 0 <= a < daily@.len() implies counts_ordered(#[trigger] daily@[a]) by {
                assert(dq(daily@[a]));
            }
            let bp = |r: OfflineRewardBag| r.cycle_id@ != cycle_id@;
            let bu = |a: OfflineRewardBag, b: OfflineRewardBag| a.bag_id@ != b.bag_id@;
            assert forall|a: int, b: int| 0 <= a < b < self.bags@.len() implies #[trigger] bu(self.bags@[a], self.bags@[b]) by {
                assert(self.bags@[a].bag_id@ != self.bags@[b].bag_id@);
            }
            lemma_filter_keeps_pairs(self.bags@, bp, bu);
            assert forall|a: int, b: int| 0 <= a < b < bags@.len() implies (#[trigger] bags@[a]).bag_id@ != (#[trigger] bags@[b]).bag_id@ by {
                assert(bu(bags@[a], bags@[b]));
            }
            let bo = |a: OfflineRewardBag, b: OfflineRewardBag| bag_le(a, b);
            assert forall|a: int, b: int| 0 <= a < b < self.bags@.len() implies #[trigger] bo(self.bags@[a], self.bags@[b]) by {
                assert(bag_le(self.bags@[a], self.bags@[b]));
            }
            lemma_filter_keeps_pairs(self.bags@, bp, bo);
            assert forall|a: int, b: int| 0 <= a < b < bags@.len() implies bag_le(#[trigger] bags@[a], #[trigger] bags@[b]) by {
                assert(bo(bags@[a], bags@[b]));
            }
            let ep = |r: LiveRewardEvent| r.cycle_id@ != cycle_id@;
            let eu = |a: LiveRewardEvent, b: LiveRewardEvent| a.event_id@ != b.event_id@;
            assert forall|a: int, b: int| 0 <= a < b < self.events@.len() implies #[trigger] eu(self.events@[a], self.events@[b]) by {
                assert(self.events@[a].event_id@ != self.events@[b].event_id@);
            }
            lemma_filter_keeps_pairs(self.events@, ep, eu);
            assert forall|a: int, b: int| 0 <= a < b < events@.len() implies (#[trigger] events@[a]).event_id@ != (#[trigger] events@[b]).event_id@ by {
                assert(eu(events@[a], events@[b]));
            }
            let eo = |a: LiveRewardEvent, b: LiveRewardEvent| event_le(a, b);
            assert forall|a: int, b: int| 0 <= a < b < self.events@.len() implies #[trigger] eo(self.events@[a], self.events@[b]) by {
                assert(event_le(self.events@[a], self.events@[b]));
            }
            lemma_filter_keeps_pairs(self.events@, ep, eo);
            assert forall|a: int, b: int| 0 <= a < b < events@.len() implies event_le(#[trigger] events@[a], #[trigger] events@[b]) by {
                assert(eo(events@[a], events@[b]));
            }
            let lp = |r: CollectionLedgerEntry| r.cycle_id@ != cycle_id@;
            let lu = |a: CollectionLedgerEntry, b: CollectionLedgerEntry| a.transaction_id@ != b.transaction_id@;
            assert forall|a: int, b: int| 0 <= a < b < self.ledger@.len() implies #[trigger] lu(self.ledger@[a], self.ledger@[b]) by {
                assert(self.ledger@[a].transaction_id@ != self.ledger@[b].transaction_id@);
            }
            lemma_filter_keeps_pairs(self.ledger@, lp, lu);
            assert forall|a: int, b: int| 0 <= a < b < ledger@.len() implies (#[trigger] ledger@[a]).transaction_id@ != (#[trigger] ledger@[b]).transaction_id@ by {
                assert(lu(ledger@[a], ledger@[b]));
            }
            let lo = |a: CollectionLedgerEntry, b: CollectionLedgerEntry| ledger_le(a, b);
            assert forall|a: int, b: int| 0 <= a < b < self.ledger@.len() implies #[trigger] lo(self.ledger@[a], self.ledger@[b]) by {
                assert(ledger_le(self.ledger@[a], self.ledger@[b]));
            }
            lemma_filter_keeps_pairs(self.ledger@, lp, lo);
            assert forall|a: int, b: int| 0 <= a < b < ledger@.len() implies ledger_le(#[trigger] ledger@[a], #[trigger] ledger@[b]) by {
                assert(lo(ledger@[a], ledger@[b]));
            }
        }
        self.cycles = cycles;
        self.daily = daily;
        self.bags = bags;
        self.bag_items = items;
        self.events = events;
        self.ledger = ledger;
        true
    }
}

impl LedgerStore {
    /// The frozen payroll cycles, in the order they were frozen.
    pub fn cycle_rows(&self) -> (res: &Vec<PayrollCycleRecord>)
        ensures
            res@ == self.cycles_view(),
    {
        &self.cycles
    }

    /// The settings: key, value and update time.
    pub fn setting_rows(&self) -> (res: &Vec<(String, String, Instant)>)
        ensures
            res@ == self.settings_view(),
    {
        &self.settings
    }

    /// The daily reward rows.
    pub fn daily_rows(&self) -> (res: &Vec<DailyRewardState>)
        ensures
            res@ == self.daily_view(),
    {
        &self.daily
    }

    /// The offline reward bags, by creation time.
    pub fn bag_rows(&self) -> (res: &Vec<OfflineRewardBag>)
        ensures
            res@ == self.bags_view(),
    {
        &self.bags
    }

    /// The offline reward bag items.
    pub fn bag_item_rows(&self) -> (res: &Vec<OfflineRewardBagItem>)
        ensures
            res@ == self.items_view(),
    {
        &self.bag_items
    }

    /// The collection ledger entries, by creation time.
    pub fn ledger_rows(&self) -> (res: &Vec<CollectionLedgerEntry>)
        ensures
            res@ == self.ledger_view(),
    {
        &self.ledger
    }

    /// The live reward events, by work date and event index.
    pub fn event_rows(&self) -> (res: &Vec<LiveRewardEvent>)
        ensures
            res@ == self.events_view(),
    {
        &self.events
    }

    /// Restores a stored payroll cycle; refused when its id is taken.
    pub fn restore_cycle(&mut self, record: PayrollCycleRecord) -> (res: Result<(), PersistenceError>)
        ensures
            res is Ok <==> cycle_lookup(old(self).cycles_view(), record.cycle_id@) is None
                && record.workday_count > 0,
            res is Ok ==> final(self).cycles_view() == old(self).cycles_view().push(record)
                && final(self).same_rows_but_cycles(*old(self)),
            res matches Err(e) ==> final(self).unchanged_from(*old(self)) && (e is DuplicateId
                || e is InvariantViolation),
    {
        proof {
            use_type_invariant(&*self);
        }
        if record.workday_count == 0 {
            return Err(PersistenceError::InvariantViolation("stored payroll cycle has no workdays"));
        }
        if self.find_cycle(record.cycle_id.as_str()).is_some() {
            return Err(PersistenceError::DuplicateId(record.cycle_id.clone()));
        }
        let ghost c0 = self.cycles@;
        let mut cycles: Vec<PayrollCycleRecord> = Vec::new();
        std::mem::swap(&mut cycles, &mut self.cycles);
        cycles.push(record);
        proof {
            let c1 = cycles@;
            assert forall|a: int, b: int| 0 <= a < b < c1.len() implies (#[trigger] c1[a]).cycle_id@ != (#[trigger] c1[b]).cycle_id@ by {
                if b < c0.len() {
                    assert(c0[a].cycle_id@ != c0[b].cycle_id@);
                }
            }
        }
        std::mem::swap(&mut cycles, &mut self.cycles);
        Ok(())
    }

    /// Restores a stored setting (a later one of the same key replaces an earlier one).
    pub fn restore_setting(&mut self, key: &str, value: &str, updated_at: Instant)
        ensures
            forall|k: Seq<char>|
                #[trigger] setting_lookup(final(self).settings_view(), k) == if k == key@ {
                    Some(value@)
                } else {
                    setting_lookup(old(self).settings_view(), k)
                },
            final(self).same_rows_but_settings(*old(self)),
    {
        self.put_setting(key, value, updated_at);
    }

    /// Restores a stored daily row; refused when its key is taken or its counts are not
    /// ordered.
    pub fn restore_daily(&mut self, row: DailyRewardState) -> (res: Result<(), PersistenceError>)
        ensures
            res is Ok <==> daily_lookup(old(self).daily_view(), row.cycle_id@, row.work_date@) is None
                && counts_ordered(row),
            res is Ok ==> forall|c: Seq<char>, d: int|
                #[trigger] daily_lookup(final(self).daily_view(), c, d) == if daily_key(row, c, d) {
                    Some(row)
                } else {
                    daily_lookup(old(self).daily_view(), c, d)
                },
            res is Ok ==> final(self).same_rows_but_daily(*old(self)),
            res matches Err(e) ==> final(self).unchanged_from(*old(self)) && e is InvariantViolation,
    {
        let full = RewardCounts::from_work_seconds(WORK_SECONDS_PER_DAY as u64);
        let ordered = row.collected.silver <= row.accounted.silver && row.collected.gold <= row.accounted.gold
            && row.collected.diamond <= row.accounted.diamond && row.accounted.silver <= row.entitled.silver
            && row.accounted.gold <= row.entitled.gold && row.accounted.diamond <= row.entitled.diamond
            && row.entitled.silver <= full.silver && row.entitled.gold <= full.gold && row.entitled.diamond
            <= full.diamond;
        if !ordered || self.find_daily(row.cycle_id.as_str(), row.work_date).is_some() {
            return Err(PersistenceError::InvariantViolation("stored daily reward row is inconsistent"));
        }
        let ghost d0 = self.daily_view();
        let mut writes: Vec<DailyRewardState> = Vec::new();
        writes.push(row);
        self.write_daily_rows(&writes);
        proof {
            assert forall|c: Seq<char>, dd: int| #[trigger] daily_after_writes(d0, writes@, c, dd) == if daily_key(row, c, dd) {
                Some(row)
            } else {
                daily_lookup(d0, c, dd)
            } by {
                assert(writes@.len() == 1);
                assert(writes@.last() == row);
                assert(writes@.drop_last() == Seq::<DailyRewardState>::empty());
                assert(daily_after_writes(d0, Seq::<DailyRewardState>::empty(), c, dd) == daily_lookup(d0, c, dd));
            }
        }
        Ok(())
    }

    /// Restores a stored bag; refused when its id is taken.
    pub fn restore_bag(&mut self, bag: OfflineRewardBag) -> (res: Result<(), PersistenceError>)
        ensures
            res is Ok <==> bag_lookup(old(self).bags_view(), bag.bag_id@) is None,
            res is Ok ==> forall|id: Seq<char>|
                #[trigger] bag_lookup(final(self).bags_view(), id) == if id == bag.bag_id@ {
                    Some(bag)
                } else {
                    bag_lookup(old(self).bags_view(), id)
                },
            res is Ok ==> final(self).same_rows_but_bags(*old(self)),
            res matches Err(e) ==> final(self).unchanged_from(*old(self)) && e is DuplicateId,
    {
        if self.find_bag(bag.bag_id.as_str()).is_some() {
            return Err(PersistenceError::DuplicateId(bag.bag_id.clone()));
        }
        self.add_bag(bag);
        Ok(())
    }

    /// Restores a stored bag item.
    pub fn restore_bag_item(&mut self, item: OfflineRewardBagItem)
        ensures
            final(self).items_view() == old(self).items_view().push(item),
            final(self).same_rows_but_items(*old(self)),
    {
        let mut extra: Vec<OfflineRewardBagItem> = Vec::new();
        extra.push(item);
        self.append_items(&mut extra);
    }

    /// Restores a stored ledger entry; refused when its id is taken.
    pub fn restore_ledger_entry(&mut self, entry: CollectionLedgerEntry) -> (res: Result<(), PersistenceError>)
        ensures
            res is Ok <==> ledger_lookup(old(self).ledger_view(), entry.transaction_id@) is None,
            res is Ok ==> forall|id: Seq<char>|
                #[trigger] ledger_lookup(final(self).ledger_view(), id) == if id == entry.transaction_id@ {
                    Some(entry)
                } else {
                    ledger_lookup(old(self).ledger_view(), id)
                },
            res is Ok ==> final(self).same_rows_but_ledger(*old(self)),
            res matches Err(e) ==> final(self).unchanged_from(*old(self)) && e is DuplicateId,
    {
        if self.find_ledger_entry(entry.transaction_id.as_str()) {
            return Err(PersistenceError::DuplicateId(entry.transaction_id.clone()));
        }
        self.add_ledger_entry(entry);
        Ok(())
    }

    /// Restores a stored live event; refused when its id is taken.
    pub fn restore_event(&mut self, event: LiveRewardEvent) -> (res: Result<(), PersistenceError>)
        ensures
            res is Ok <==> event_lookup(old(self).events_view(), event.event_id@) is None,
            res is Ok ==> forall|id: Seq<char>|
                #[trigger] event_lookup(final(self).events_view(), id) == if id == event.event_id@ {
                    Some(event)
                } else {
                    event_lookup(old(self).events_view(), id)
                },
            res is Ok ==> final(self).same_rows_but_events(*old(self)),
            res matches Err(e) ==> final(self).unchanged_from(*old(self)) && e is DuplicateId,
    {
        if self.find_event(event.event_id.as_str()).is_some() {
            return Err(PersistenceError::DuplicateId(event.event_id.clone()));
        }
        let mut fresh: Vec<LiveRewardEvent> = Vec::new();
        fresh.push(event);
        proof {
            assert(fresh@.len() == 1 && fresh@[0] == event);
        }
        self.add_events(&fresh);
        proof {
            assert forall|id: Seq<char>| #[trigger] event_lookup(fresh@, id) == if id == event.event_id@ {
                Some(event)
            } else {
                None::<LiveRewardEvent>
            } by {
                if id == event.event_id@ {
                    lemma_event_hit(fresh@, 0, id);
                }
            }
        }
        Ok(())
    }
}

} // verus!
