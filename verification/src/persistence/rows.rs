//! The rows of the reward ledger, their keys, and keyed writes that keep keys unique and
//! rows in order.
use vstd::prelude::*;

use super::{
    CollectionLedgerEntry, DailyRewardState, LiveRewardEvent, OfflineRewardBag, PayrollCycleRecord,
};
use crate::text::text_eq;
use crate::time::{instant_le, instant_lt, Date};

verus! {

// ---------------------------------------------------------------------------------------
// Daily reward state, keyed by cycle and work date
// ---------------------------------------------------------------------------------------

pub open spec fn daily_key(st: DailyRewardState, cycle: Seq<char>, day: int) -> bool {
    st.cycle_id@ == cycle && st.work_date@ == day
}

/// The daily reward state of a cycle and work date, if there is one.
pub open spec fn daily_lookup(s: Seq<DailyRewardState>, cycle: Seq<char>, day: int) -> Option<
    DailyRewardState,
> {
    if exists|i: int| 0 <= i < s.len() && daily_key(#[trigger] s[i], cycle, day) {
        Some(s[choose|i: int| 0 <= i < s.len() && daily_key(#[trigger] s[i], cycle, day)])
    } else {
        None
    }
}

/// No two daily rows share a cycle and work date.
pub open spec fn daily_unique(s: Seq<DailyRewardState>) -> bool {
    forall|i: int, j: int|
        0 <= i < j < s.len() ==> !daily_key(
            #[trigger] s[i],
            s[j].cycle_id@,
            (#[trigger] s[j]).work_date@,
        )
}

/// The daily rows after writing `writes`, in order, over `s`: the last write of a key wins.
pub open spec fn daily_after_writes(
    s: Seq<DailyRewardState>,
    writes: Seq<DailyRewardState>,
    cycle: Seq<char>,
    day: int,
) -> Option<DailyRewardState>
    decreases writes.len(),
{
    if writes.len() == 0 {
        daily_lookup(s, cycle, day)
    } else if daily_key(writes.last(), cycle, day) {
        Some(writes.last())
    } else {
        daily_after_writes(s, writes.drop_last(), cycle, day)
    }
}

pub proof fn lemma_daily_hit(s: Seq<DailyRewardState>, i: int, cycle: Seq<char>, day: int)
    requires
        daily_unique(s),
        0 <= i < s.len(),
        daily_key(s[i], cycle, day),
    ensures
        daily_lookup(s, cycle, day) == Some(s[i]),
{
    let k = choose|k: int| 0 <= k < s.len() && daily_key(#[trigger] s[k], cycle, day);
    assert(0 <= k < s.len() && daily_key(s[k], cycle, day));
    if k < i {
        assert(!daily_key(s[k], s[i].cycle_id@, s[i].work_date@));
    } else if k > i {
        assert(!daily_key(s[i], s[k].cycle_id@, s[k].work_date@));
    }
}


/// A write of a key wins over the base rows when no other write has that key.
pub proof fn lemma_after_writes_hit(
    s: Seq<DailyRewardState>,
    w: Seq<DailyRewardState>,
    i: int,
    cycle: Seq<char>,
    day: int,
)
    requires
        daily_unique(w),
        0 <= i < w.len(),
        daily_key(w[i], cycle, day),
    ensures
        daily_after_writes(s, w, cycle, day) == Some(w[i]),
    decreases w.len(),
{
    if i < w.len() - 1 {
        assert(!daily_key(w[i], w[w.len() - 1].cycle_id@, w[w.len() - 1].work_date@));
        let w2 = w.drop_last();
        assert forall|a: int, b: int| 0 <= a < b < w2.len() implies !daily_key(
            #[trigger] w2[a],
            w2[b].cycle_id@,
            (#[trigger] w2[b]).work_date@,
        ) by {
            assert(!daily_key(w[a], w[b].cycle_id@, w[b].work_date@));
        }
        lemma_after_writes_hit(s, w2, i, cycle, day);
    }
}

/// A key no write has keeps its base row.
pub proof fn lemma_after_writes_miss(
    s: Seq<DailyRewardState>,
    w: Seq<DailyRewardState>,
    cycle: Seq<char>,
    day: int,
)
    requires
        forall|i: int| 0 <= i < w.len() ==> !daily_key(#[trigger] w[i], cycle, day),
    ensures
        daily_after_writes(s, w, cycle, day) == daily_lookup(s, cycle, day),
    decreases w.len(),
{
    if w.len() > 0 {
        assert(!daily_key(w[w.len() - 1], cycle, day));
        let w2 = w.drop_last();
        assert forall|i: int| 0 <= i < w2.len() implies !daily_key(#[trigger] w2[i], cycle, day) by {
            assert(w2[i] == w[i]);
        }
        lemma_after_writes_miss(s, w2, cycle, day);
    }
}

/// Writes `st` over the row of its key, or appends it when there is none.
pub(crate) fn put_daily(rows: &mut Vec<DailyRewardState>, st: DailyRewardState)
    requires
        daily_unique(old(rows)@),
    ensures
        daily_unique(final(rows)@),
        forall|c: Seq<char>, d: int|
            #[trigger] daily_lookup(final(rows)@, c, d) == if daily_key(st, c, d) {
                Some(st)
            } else {
                daily_lookup(old(rows)@, c, d)
            },
        forall|i: int|
            0 <= i < final(rows)@.len() ==> #[trigger] final(rows)@[i] == st || old(
                rows,
            )@.contains(final(rows)@[i]),
{
    let ghost s0 = rows@;
    let mut i: usize = 0;
    while i < rows.len()
        invariant
            s0 == rows@,
            i <= rows@.len(),
            forall|j: int| 0 <= j < i ==> !daily_key(#[trigger] rows@[j], st.cycle_id@, st.work_date@),
        ensures
            s0 == rows@,
            i <= rows@.len(),
            i < rows@.len() ==> daily_key(rows@[i as int], st.cycle_id@, st.work_date@),
            forall|j: int| 0 <= j < i ==> !daily_key(#[trigger] rows@[j], st.cycle_id@, st.work_date@),
        decreases rows@.len() - i,
    {
        if rows[i].work_date.same_day(&st.work_date) && text_eq(
            rows[i].cycle_id.as_str(),
            st.cycle_id.as_str(),
        ) {
            break;
        }
        i = i + 1;
    }
    if i < rows.len() {
        let ghost idx = i as int;
        rows.set(i, st);
        proof {
            let s1 = rows@;
            assert(s1 == s0.update(idx, st));
            assert forall|a: int, b: int| 0 <= a < b < s1.len() implies !daily_key(
                #[trigger] s1[a],
                s1[b].cycle_id@,
                (#[trigger] s1[b]).work_date@,
            ) by {
                assert(!daily_key(s0[a], s0[b].cycle_id@, s0[b].work_date@));
            }
            assert forall|c: Seq<char>, d: int|
                #[trigger] daily_lookup(s1, c, d) == if daily_key(st, c, d) {
                    Some(st)
                } else {
                    daily_lookup(s0, c, d)
                } by {
                if daily_key(st, c, d) {
                    lemma_daily_hit(s1, idx, c, d);
                } else {
                    if exists|k: int| 0 <= k < s0.len() && daily_key(#[trigger] s0[k], c, d) {
                        let k = choose|k: int| 0 <= k < s0.len() && daily_key(#[trigger] s0[k], c, d);
                        lemma_daily_hit(s0, k, c, d);
                        assert(k != idx);
                        lemma_daily_hit(s1, k, c, d);
                    } else {
                        assert forall|k: int| 0 <= k < s1.len() implies !daily_key(#[trigger] s1[k], c, d) by {
                            if k != idx {
                                assert(s1[k] == s0[k]);
                            }
                        }
                    }
                }
            }
            assert forall|j: int| 0 <= j < s1.len() implies #[trigger] s1[j] == st || s0.contains(s1[j]) by {
                if j != idx {
                    assert(s0[j] == s1[j]);
                }
            }
        }
    } else {
        rows.push(st);
        proof {
            let s1 = rows@;
            let n = s0.len() as int;
            assert(s1 == s0.push(st));
            assert forall|a: int, b: int| 0 <= a < b < s1.len() implies !daily_key(
                #[trigger] s1[a],
                s1[b].cycle_id@,
                (#[trigger] s1[b]).work_date@,
            ) by {
                if b < n {
                    assert(!daily_key(s0[a], s0[b].cycle_id@, s0[b].work_date@));
                } else {
                    assert(!daily_key(s0[a], st.cycle_id@, st.work_date@));
                }
            }
            assert forall|c: Seq<char>, d: int|
                #[trigger] daily_lookup(s1, c, d) == if daily_key(st, c, d) {
                    Some(st)
                } else {
                    daily_lookup(s0, c, d)
                } by {
                if daily_key(st, c, d) {
                    lemma_daily_hit(s1, n, c, d);
                } else {
                    if exists|k: int| 0 <= k < s0.len() && daily_key(#[trigger] s0[k], c, d) {
                        let k = choose|k: int| 0 <= k < s0.len() && daily_key(#[trigger] s0[k], c, d);
                        lemma_daily_hit(s0, k, c, d);
                        lemma_daily_hit(s1, k, c, d);
                    } else {
                        assert forall|k: int| 0 <= k < s1.len() implies !daily_key(#[trigger] s1[k], c, d) by {
                            if k < n {
                                assert(s1[k] == s0[k]);
                            }
                        }
                    }
                }
            }
            assert forall|j: int| 0 <= j < s1.len() implies #[trigger] s1[j] == st || s0.contains(s1[j]) by {
                if j < n {
                    assert(s0[j] == s1[j]);
                }
            }
        }
    }
}

/// The daily row of a key as it stands in `rows` after the `writes` still to be applied.
pub(crate) fn daily_after(
    rows: &Vec<DailyRewardState>,
    writes: &Vec<DailyRewardState>,
    cycle_id: &str,
    work_date: Date,
) -> (res: Option<DailyRewardState>)
    requires
        daily_unique(rows@),
    ensures
        res == daily_after_writes(rows@, writes@, cycle_id@, work_date@),
{
    let mut k: usize = writes.len();
    assert(writes@.take(k as int) == writes@);
    while k > 0
        invariant
            k <= writes@.len(),
            daily_after_writes(rows@, writes@, cycle_id@, work_date@) == daily_after_writes(
                rows@,
                writes@.take(k as int),
                cycle_id@,
                work_date@,
            ),
        decreases k,
    {
        let w = &writes[k - 1];
        assert(writes@.take(k as int).drop_last() == writes@.take(k - 1));
        if w.work_date.same_day(&work_date) && text_eq(w.cycle_id.as_str(), cycle_id) {
            return Some(w.clone());
        }
        k = k - 1;
    }
    assert(writes@.take(0) == Seq::<DailyRewardState>::empty());
    let mut i: usize = 0;
    while i < rows.len()
        invariant
            i <= rows@.len(),
            daily_unique(rows@),
            daily_after_writes(rows@, writes@, cycle_id@, work_date@) == daily_lookup(
                rows@,
                cycle_id@,
                work_date@,
            ),
            forall|j: int| 0 <= j < i ==> !daily_key(#[trigger] rows@[j], cycle_id@, work_date@),
        decreases rows@.len() - i,
    {
        if rows[i].work_date.same_day(&work_date) && text_eq(rows[i].cycle_id.as_str(), cycle_id) {
            proof {
                lemma_daily_hit(rows@, i as int, cycle_id@, work_date@);
            }
            return Some(rows[i].clone());
        }
        i = i + 1;
    }
    None
}

/// Bag order: by creation time.
pub open spec fn bag_le(a: OfflineRewardBag, b: OfflineRewardBag) -> bool {
    instant_le(a.created_at@, b.created_at@)
}

/// Event order: by work date, then event index.
pub open spec fn event_le(a: LiveRewardEvent, b: LiveRewardEvent) -> bool {
    a.work_date@ < b.work_date@ || (a.work_date@ == b.work_date@ && a.event_index <= b.event_index)
}

/// Ledger order: by creation time.
pub open spec fn ledger_le(a: CollectionLedgerEntry, b: CollectionLedgerEntry) -> bool {
    instant_le(a.created_at@, b.created_at@)
}

// ---------------------------------------------------------------------------------------
// Offline reward bags, keyed by bag id, in creation-time order
// ---------------------------------------------------------------------------------------

/// The offline reward bag of an id, if there is one.
pub open spec fn bag_lookup(s: Seq<OfflineRewardBag>, id: Seq<char>) -> Option<OfflineRewardBag> {
    if exists|i: int| 0 <= i < s.len() && (#[trigger] s[i]).bag_id@ == id {
        Some(s[choose|i: int| 0 <= i < s.len() && (#[trigger] s[i]).bag_id@ == id])
    } else {
        None
    }
}

/// No two offline reward bags share an id.
pub open spec fn bags_unique(s: Seq<OfflineRewardBag>) -> bool {
    forall|i: int, j: int| 0 <= i < j < s.len() ==> (#[trigger] s[i]).bag_id@ != (#[trigger] s[j]).bag_id@
}

/// Bags are kept in creation-time order.
pub open spec fn bags_sorted(s: Seq<OfflineRewardBag>) -> bool {
    forall|i: int, j: int| 0 <= i < j < s.len() ==> bag_le(#[trigger] s[i], #[trigger] s[j])
}

pub proof fn lemma_bag_hit(s: Seq<OfflineRewardBag>, i: int, id: Seq<char>)
    requires
        bags_unique(s),
        0 <= i < s.len(),
        s[i].bag_id@ == id,
    ensures
        bag_lookup(s, id) == Some(s[i]),
{
    let k = choose|k: int| 0 <= k < s.len() && (#[trigger] s[k]).bag_id@ == id;
    assert(0 <= k < s.len() && s[k].bag_id@ == id);
    if k < i {
        assert(s[k].bag_id@ != s[i].bag_id@);
    } else if k > i {
        assert(s[i].bag_id@ != s[k].bag_id@);
    }
}

/// Lookups in `s.insert(p, x)` for a fresh `x`.
pub proof fn lemma_bag_insert(s: Seq<OfflineRewardBag>, p: int, x: OfflineRewardBag)
    requires
        bags_unique(s),
        0 <= p <= s.len(),
        forall|j: int| 0 <= j < s.len() ==> (#[trigger] s[j]).bag_id@ != x.bag_id@,
    ensures
        bags_unique(s.insert(p, x)),
        forall|id: Seq<char>|
            #[trigger] bag_lookup(s.insert(p, x), id) == if id == x.bag_id@ {
                Some(x)
            } else {
                bag_lookup(s, id)
            },
{
    let s1 = s.insert(p, x);
    assert forall|a: int, b: int| 0 <= a < b < s1.len() implies (#[trigger] s1[a]).bag_id@ != (
    #[trigger] s1[b]).bag_id@ by {
        if a < p && b < p {
            assert(s1[a] == s[a] && s1[b] == s[b]);
        } else if a < p && b == p {
            assert(s1[a] == s[a]);
        } else if a < p {
            assert(s1[a] == s[a] && s1[b] == s[b - 1]);
        } else if a == p {
            assert(s1[b] == s[b - 1]);
        } else {
            assert(s1[a] == s[a - 1] && s1[b] == s[b - 1]);
        }
    }
    assert forall|id: Seq<char>|
        #[trigger] bag_lookup(s1, id) == if id == x.bag_id@ {
            Some(x)
        } else {
            bag_lookup(s, id)
        } by {
        if id == x.bag_id@ {
            lemma_bag_hit(s1, p, id);
        } else if exists|k: int| 0 <= k < s.len() && (#[trigger] s[k]).bag_id@ == id {
            let k = choose|k: int| 0 <= k < s.len() && (#[trigger] s[k]).bag_id@ == id;
            lemma_bag_hit(s, k, id);
            if k < p {
                lemma_bag_hit(s1, k, id);
            } else {
                assert(s1[k + 1] == s[k]);
                lemma_bag_hit(s1, k + 1, id);
            }
        } else {
            assert forall|k: int| 0 <= k < s1.len() implies (#[trigger] s1[k]).bag_id@ != id by {
                if k < p {
                    assert(s1[k] == s[k]);
                } else if k > p {
                    assert(s1[k] == s[k - 1]);
                }
            }
        }
    }
}

/// Lookups in `s.update(i, x)` where `x` keeps the id of the row it replaces.
pub proof fn lemma_bag_update(s: Seq<OfflineRewardBag>, i: int, x: OfflineRewardBag)
    requires
        bags_unique(s),
        0 <= i < s.len(),
        s[i].bag_id@ == x.bag_id@,
    ensures
        bags_unique(s.update(i, x)),
        forall|id: Seq<char>|
            #[trigger] bag_lookup(s.update(i, x), id) == if id == x.bag_id@ {
                Some(x)
            } else {
                bag_lookup(s, id)
            },
{
    let s1 = s.update(i, x);
    assert forall|a: int, b: int| 0 <= a < b < s1.len() implies (#[trigger] s1[a]).bag_id@ != (
    #[trigger] s1[b]).bag_id@ by {
        assert(s[a].bag_id@ != s[b].bag_id@);
    }
    assert forall|id: Seq<char>|
        #[trigger] bag_lookup(s1, id) == if id == x.bag_id@ {
            Some(x)
        } else {
            bag_lookup(s, id)
        } by {
        if id == x.bag_id@ {
            lemma_bag_hit(s1, i, id);
        } else if exists|k: int| 0 <= k < s.len() && (#[trigger] s[k]).bag_id@ == id {
            let k = choose|k: int| 0 <= k < s.len() && (#[trigger] s[k]).bag_id@ == id;
            lemma_bag_hit(s, k, id);
            lemma_bag_hit(s1, k, id);
        } else {
            assert forall|k: int| 0 <= k < s1.len() implies (#[trigger] s1[k]).bag_id@ != id by {
                if k != i {
                    assert(s1[k] == s[k]);
                }
            }
        }
    }
}

/// Inserts a offline reward bag with a fresh id after every row ordered at or before it.
pub(crate) fn insert_bag(rows: &mut Vec<OfflineRewardBag>, x: OfflineRewardBag) -> (pos: Ghost<int>)
    requires
        bags_unique(old(rows)@),
        bags_sorted(old(rows)@),
        forall|j: int| 0 <= j < old(rows)@.len() ==> (#[trigger] old(rows)@[j]).bag_id@ != x.bag_id@,
    ensures
        0 <= pos@ <= old(rows)@.len(),
        final(rows)@ == old(rows)@.insert(pos@, x),
        bags_unique(final(rows)@),
        bags_sorted(final(rows)@),
        forall|id: Seq<char>|
            #[trigger] bag_lookup(final(rows)@, id) == if id == x.bag_id@ {
                Some(x)
            } else {
                bag_lookup(old(rows)@, id)
            },
{
    let ghost s0 = rows@;
    let mut p: usize = 0;
    while p < rows.len() && !x.created_at.is_before(&rows[p].created_at)
        invariant
            s0 == rows@,
            p <= rows@.len(),
            forall|j: int| 0 <= j < p ==> bag_le(#[trigger] rows@[j], x),
        decreases rows@.len() - p,
    {
        p = p + 1;
    }
    proof {
        lemma_bag_insert(s0, p as int, x);
        let s1 = s0.insert(p as int, x);
        assert forall|a: int, b: int| 0 <= a < b < s1.len() implies bag_le(#[trigger] s1[a], #[trigger] s1[b]) by {
            if a < p && b < p {
                assert(s1[a] == s0[a] && s1[b] == s0[b]);
            } else if a < p && b == p {
                assert(s1[a] == s0[a]);
            } else if a < p {
                assert(s1[a] == s0[a] && s1[b] == s0[b - 1]);
            } else if a == p {
                assert(s1[b] == s0[b - 1]);
                if b - 1 > p {
                    assert(bag_le(s0[p as int], s0[b - 1]));
                }
            } else {
                assert(s1[a] == s0[a - 1] && s1[b] == s0[b - 1]);
            }
        }
    }
    rows.insert(p, x);
    Ghost(p as int)
}

/// Replaces the row at `i` by `x`, which keeps its id and its place in the order.
pub(crate) fn set_bag(rows: &mut Vec<OfflineRewardBag>, i: usize, x: OfflineRewardBag)
    requires
        bags_unique(old(rows)@),
        bags_sorted(old(rows)@),
        i < old(rows)@.len(),
        old(rows)@[i as int].bag_id@ == x.bag_id@,
        old(rows)@[i as int].created_at == x.created_at,
    ensures
        final(rows)@ == old(rows)@.update(i as int, x),
        bags_unique(final(rows)@),
        bags_sorted(final(rows)@),
        forall|id: Seq<char>|
            #[trigger] bag_lookup(final(rows)@, id) == if id == x.bag_id@ {
                Some(x)
            } else {
                bag_lookup(old(rows)@, id)
            },
{
    let ghost s0 = rows@;
    proof {
        lemma_bag_update(s0, i as int, x);
        let s1 = s0.update(i as int, x);
        assert forall|a: int, b: int| 0 <= a < b < s1.len() implies bag_le(#[trigger] s1[a], #[trigger] s1[b]) by {
            assert(bag_le(s0[a], s0[b]));
        }
    }
    rows.set(i, x);
}

// ---------------------------------------------------------------------------------------
// Live reward events, keyed by event id, in (work date, event index) order
// ---------------------------------------------------------------------------------------

/// The live reward event of an id, if there is one.
pub open spec fn event_lookup(s: Seq<LiveRewardEvent>, id: Seq<char>) -> Option<LiveRewardEvent> {
    if exists|i: int| 0 <= i < s.len() && (#[trigger] s[i]).event_id@ == id {
        Some(s[choose|i: int| 0 <= i < s.len() && (#[trigger] s[i]).event_id@ == id])
    } else {
        None
    }
}

/// No two live reward events share an id.
pub open spec fn events_unique(s: Seq<LiveRewardEvent>) -> bool {
    forall|i: int, j: int| 0 <= i < j < s.len() ==> (#[trigger] s[i]).event_id@ != (#[trigger] s[j]).event_id@
}

/// Live events are kept in (work date, event index) order.
pub open spec fn events_sorted(s: Seq<LiveRewardEvent>) -> bool {
    forall|i: int, j: int| 0 <= i < j < s.len() ==> event_le(#[trigger] s[i], #[trigger] s[j])
}

pub proof fn lemma_event_hit(s: Seq<LiveRewardEvent>, i: int, id: Seq<char>)
    requires
        events_unique(s),
        0 <= i < s.len(),
        s[i].event_id@ == id,
    ensures
        event_lookup(s, id) == Some(s[i]),
{
    let k = choose|k: int| 0 <= k < s.len() && (#[trigger] s[k]).event_id@ == id;
    assert(0 <= k < s.len() && s[k].event_id@ == id);
    if k < i {
        assert(s[k].event_id@ != s[i].event_id@);
    } else if k > i {
        assert(s[i].event_id@ != s[k].event_id@);
    }
}

/// Lookups in `s.insert(p, x)` for a fresh `x`.
pub proof fn lemma_event_insert(s: Seq<LiveRewardEvent>, p: int, x: LiveRewardEvent)
    requires
        events_unique(s),
        0 <= p <= s.len(),
        forall|j: int| 0 <= j < s.len() ==> (#[trigger] s[j]).event_id@ != x.event_id@,
    ensures
        events_unique(s.insert(p, x)),
        forall|id: Seq<char>|
            #[trigger] event_lookup(s.insert(p, x), id) == if id == x.event_id@ {
                Some(x)
            } else {
                event_lookup(s, id)
            },
{
    let s1 = s.insert(p, x);
    assert forall|a: int, b: int| 0 <= a < b < s1.len() implies (#[trigger] s1[a]).event_id@ != (
    #[trigger] s1[b]).event_id@ by {
        if a < p && b < p {
            assert(s1[a] == s[a] && s1[b] == s[b]);
        } else if a < p && b == p {
            assert(s1[a] == s[a]);
        } else if a < p {
            assert(s1[a] == s[a] && s1[b] == s[b - 1]);
        } else if a == p {
            assert(s1[b] == s[b - 1]);
        } else {
            assert(s1[a] == s[a - 1] && s1[b] == s[b - 1]);
        }
    }
    assert forall|id: Seq<char>|
        #[trigger] event_lookup(s1, id) == if id == x.event_id@ {
            Some(x)
        } else {
            event_lookup(s, id)
        } by {
        if id == x.event_id@ {
            lemma_event_hit(s1, p, id);
        } else if exists|k: int| 0 <= k < s.len() && (#[trigger] s[k]).event_id@ == id {
            let k = choose|k: int| 0 <= k < s.len() && (#[trigger] s[k]).event_id@ == id;
            lemma_event_hit(s, k, id);
            if k < p {
                lemma_event_hit(s1, k, id);
            } else {
                assert(s1[k + 1] == s[k]);
                lemma_event_hit(s1, k + 1, id);
            }
        } else {
            assert forall|k: int| 0 <= k < s1.len() implies (#[trigger] s1[k]).event_id@ != id by {
                if k < p {
                    assert(s1[k] == s[k]);
                } else if k > p {
                    assert(s1[k] == s[k - 1]);
                }
            }
        }
    }
}

/// Lookups in `s.update(i, x)` where `x` keeps the id of the row it replaces.
pub proof fn lemma_event_update(s: Seq<LiveRewardEvent>, i: int, x: LiveRewardEvent)
    requires
        events_unique(s),
        0 <= i < s.len(),
        s[i].event_id@ == x.event_id@,
    ensures
        events_unique(s.update(i, x)),
        forall|id: Seq<char>|
            #[trigger] event_lookup(s.update(i, x), id) == if id == x.event_id@ {
                Some(x)
            } else {
                event_lookup(s, id)
            },
{
    let s1 = s.update(i, x);
    assert forall|a: int, b: int| 0 <= a < b < s1.len() implies (#[trigger] s1[a]).event_id@ != (
    #[trigger] s1[b]).event_id@ by {
        assert(s[a].event_id@ != s[b].event_id@);
    }
    assert forall|id: Seq<char>|
        #[trigger] event_lookup(s1, id) == if id == x.event_id@ {
            Some(x)
        } else {
            event_lookup(s, id)
        } by {
        if id == x.event_id@ {
            lemma_event_hit(s1, i, id);
        } else if exists|k: int| 0 <= k < s.len() && (#[trigger] s[k]).event_id@ == id {
            let k = choose|k: int| 0 <= k < s.len() && (#[trigger] s[k]).event_id@ == id;
            lemma_event_hit(s, k, id);
            lemma_event_hit(s1, k, id);
        } else {
            assert forall|k: int| 0 <= k < s1.len() implies (#[trigger] s1[k]).event_id@ != id by {
                if k != i {
                    assert(s1[k] == s[k]);
                }
            }
        }
    }
}

/// Inserts a live reward event with a fresh id after every row ordered at or before it.
pub(crate) fn insert_event(rows: &mut Vec<LiveRewardEvent>, x: LiveRewardEvent) -> (pos: Ghost<int>)
    requires
        events_unique(old(rows)@),
        events_sorted(old(rows)@),
        forall|j: int| 0 <= j < old(rows)@.len() ==> (#[trigger] old(rows)@[j]).event_id@ != x.event_id@,
    ensures
        0 <= pos@ <= old(rows)@.len(),
        final(rows)@ == old(rows)@.insert(pos@, x),
        events_unique(final(rows)@),
        events_sorted(final(rows)@),
        forall|id: Seq<char>|
            #[trigger] event_lookup(final(rows)@, id) == if id == x.event_id@ {
                Some(x)
            } else {
                event_lookup(old(rows)@, id)
            },
{
    let ghost s0 = rows@;
    let mut p: usize = 0;
    while p < rows.len() && (rows[p].work_date.is_before(&x.work_date) || (rows[p].work_date.same_day(&x.work_date) && rows[p].event_index <= x.event_index))
        invariant
            s0 == rows@,
            p <= rows@.len(),
            forall|j: int| 0 <= j < p ==> event_le(#[trigger] rows@[j], x),
        decreases rows@.len() - p,
    {
        p = p + 1;
    }
    proof {
        lemma_event_insert(s0, p as int, x);
        let s1 = s0.insert(p as int, x);
        assert forall|a: int, b: int| 0 <= a < b < s1.len() implies event_le(#[trigger] s1[a], #[trigger] s1[b]) by {
            if a < p && b < p {
                assert(s1[a] == s0[a] && s1[b] == s0[b]);
            } else if a < p && b == p {
                assert(s1[a] == s0[a]);
            } else if a < p {
                assert(s1[a] == s0[a] && s1[b] == s0[b - 1]);
            } else if a == p {
                assert(s1[b] == s0[b - 1]);
                if b - 1 > p {
                    assert(event_le(s0[p as int], s0[b - 1]));
                }
            } else {
                assert(s1[a] == s0[a - 1] && s1[b] == s0[b - 1]);
            }
        }
    }
    rows.insert(p, x);
    Ghost(p as int)
}

/// Replaces the row at `i` by `x`, which keeps its id and its place in the order.
pub(crate) fn set_event(rows: &mut Vec<LiveRewardEvent>, i: usize, x: LiveRewardEvent)
    requires
        events_unique(old(rows)@),
        events_sorted(old(rows)@),
        i < old(rows)@.len(),
        old(rows)@[i as int].event_id@ == x.event_id@,
        old(rows)@[i as int].work_date == x.work_date && old(rows)@[i as int].event_index == x.event_index,
    ensures
        final(rows)@ == old(rows)@.update(i as int, x),
        events_unique(final(rows)@),
        events_sorted(final(rows)@),
        forall|id: Seq<char>|
            #[trigger] event_lookup(final(rows)@, id) == if id == x.event_id@ {
                Some(x)
            } else {
                event_lookup(old(rows)@, id)
            },
{
    let ghost s0 = rows@;
    proof {
        lemma_event_update(s0, i as int, x);
        let s1 = s0.update(i as int, x);
        assert forall|a: int, b: int| 0 <= a < b < s1.len() implies event_le(#[trigger] s1[a], #[trigger] s1[b]) by {
            assert(event_le(s0[a], s0[b]));
        }
    }
    rows.set(i, x);
}

// ---------------------------------------------------------------------------------------
// Collection ledger entries, keyed by transaction id, in creation-time order
// ---------------------------------------------------------------------------------------

/// The collection ledger entry of an id, if there is one.
pub open spec fn ledger_lookup(s: Seq<CollectionLedgerEntry>, id: Seq<char>) -> Option<CollectionLedgerEntry> {
    if exists|i: int| 0 <= i < s.len() && (#[trigger] s[i]).transaction_id@ == id {
        Some(s[choose|i: int| 0 <= i < s.len() && (#[trigger] s[i]).transaction_id@ == id])
    } else {
        None
    }
}

/// No two collection ledger entries share an id.
pub open spec fn ledger_unique(s: Seq<CollectionLedgerEntry>) -> bool {
    forall|i: int, j: int| 0 <= i < j < s.len() ==> (#[trigger] s[i]).transaction_id@ != (#[trigger] s[j]).transaction_id@
}

/// Ledger entries are kept in creation-time order.
pub open spec fn ledger_sorted(s: Seq<CollectionLedgerEntry>) -> bool {
    forall|i: int, j: int| 0 <= i < j < s.len() ==> ledger_le(#[trigger] s[i], #[trigger] s[j])
}

pub proof fn lemma_ledger_hit(s: Seq<CollectionLedgerEntry>, i: int, id: Seq<char>)
    requires
        ledger_unique(s),
        0 <= i < s.len(),
        s[i].transaction_id@ == id,
    ensures
        ledger_lookup(s, id) == Some(s[i]),
{
    let k = choose|k: int| 0 <= k < s.len() && (#[trigger] s[k]).transaction_id@ == id;
    assert(0 <= k < s.len() && s[k].transaction_id@ == id);
    if k < i {
        assert(s[k].transaction_id@ != s[i].transaction_id@);
    } else if k > i {
        assert(s[i].transaction_id@ != s[k].transaction_id@);
    }
}

/// Lookups in `s.insert(p, x)` for a fresh `x`.
pub proof fn lemma_ledger_insert(s: Seq<CollectionLedgerEntry>, p: int, x: CollectionLedgerEntry)
    requires
        ledger_unique(s),
        0 <= p <= s.len(),
        forall|j: int| 0 <= j < s.len() ==> (#[trigger] s[j]).transaction_id@ != x.transaction_id@,
    ensures
        ledger_unique(s.insert(p, x)),
        forall|id: Seq<char>|
            #[trigger] ledger_lookup(s.insert(p, x), id) == if id == x.transaction_id@ {
                Some(x)
            } else {
                ledger_lookup(s, id)
            },
{
    let s1 = s.insert(p, x);
    assert forall|a: int, b: int| 0 <= a < b < s1.len() implies (#[trigger] s1[a]).transaction_id@ != (
    #[trigger] s1[b]).transaction_id@ by {
        if a < p && b < p {
            assert(s1[a] == s[a] && s1[b] == s[b]);
        } else if a < p && b == p {
            assert(s1[a] == s[a]);
        } else if a < p {
            assert(s1[a] == s[a] && s1[b] == s[b - 1]);
        } else if a == p {
            assert(s1[b] == s[b - 1]);
        } else {
            assert(s1[a] == s[a - 1] && s1[b] == s[b - 1]);
        }
    }
    assert forall|id: Seq<char>|
        #[trigger] ledger_lookup(s1, id) == if id == x.transaction_id@ {
            Some(x)
        } else {
            ledger_lookup(s, id)
        } by {
        if id == x.transaction_id@ {
            lemma_ledger_hit(s1, p, id);
        } else if exists|k: int| 0 <= k < s.len() && (#[trigger] s[k]).transaction_id@ == id {
            let k = choose|k: int| 0 <= k < s.len() && (#[trigger] s[k]).transaction_id@ == id;
            lemma_ledger_hit(s, k, id);
            if k < p {
                lemma_ledger_hit(s1, k, id);
            } else {
                assert(s1[k + 1] == s[k]);
                lemma_ledger_hit(s1, k + 1, id);
            }
        } else {
            assert forall|k: int| 0 <= k < s1.len() implies (#[trigger] s1[k]).transaction_id@ != id by {
                if k < p {
                    assert(s1[k] == s[k]);
                } else if k > p {
                    assert(s1[k] == s[k - 1]);
                }
            }
        }
    }
}

/// Inserts a collection ledger entry with a fresh id after every row ordered at or before it.
pub(crate) fn insert_ledger(rows: &mut Vec<CollectionLedgerEntry>, x: CollectionLedgerEntry) -> (pos: Ghost<int>)
    requires
        ledger_unique(old(rows)@),
        ledger_sorted(old(rows)@),
        forall|j: int| 0 <= j < old(rows)@.len() ==> (#[trigger] old(rows)@[j]).transaction_id@ != x.transaction_id@,
    ensures
        0 <= pos@ <= old(rows)@.len(),
        final(rows)@ == old(rows)@.insert(pos@, x),
        ledger_unique(final(rows)@),
        ledger_sorted(final(rows)@),
        forall|id: Seq<char>|
            #[trigger] ledger_lookup(final(rows)@, id) == if id == x.transaction_id@ {
                Some(x)
            } else {
                ledger_lookup(old(rows)@, id)
            },
{
    let ghost s0 = rows@;
    let mut p: usize = 0;
    while p < rows.len() && !x.created_at.is_before(&rows[p].created_at)
        invariant
            s0 == rows@,
            p <= rows@.len(),
            forall|j: int| 0 <= j < p ==> ledger_le(#[trigger] rows@[j], x),
        decreases rows@.len() - p,
    {
        p = p + 1;
    }
    proof {
        lemma_ledger_insert(s0, p as int, x);
        let s1 = s0.insert(p as int, x);
        assert forall|a: int, b: int| 0 <= a < b < s1.len() implies ledger_le(#[trigger] s1[a], #[trigger] s1[b]) by {
            if a < p && b < p {
                assert(s1[a] == s0[a] && s1[b] == s0[b]);
            } else if a < p && b == p {
                assert(s1[a] == s0[a]);
            } else if a < p {
                assert(s1[a] == s0[a] && s1[b] == s0[b - 1]);
            } else if a == p {
                assert(s1[b] == s0[b - 1]);
                if b - 1 > p {
                    assert(ledger_le(s0[p as int], s0[b - 1]));
                }
            } else {
                assert(s1[a] == s0[a - 1] && s1[b] == s0[b - 1]);
            }
        }
    }
    rows.insert(p, x);
    Ghost(p as int)
}


// ---------------------------------------------------------------------------------------
// Filtering rows
// ---------------------------------------------------------------------------------------

/// Every element a filter keeps comes from an earlier-or-same place of the filtered sequence.
pub proof fn lemma_filter_from<A>(s: Seq<A>, p: spec_fn(A) -> bool)
    ensures
        forall|k: int|
            0 <= k < s.filter(p).len() ==> exists|j: int| 0 <= j < s.len() && s[j] == #[trigger] s.filter(p)[k],
    decreases s.len(),
{
    reveal(Seq::filter);
    if s.len() > 0 {
        let s2 = s.drop_last();
        lemma_filter_from(s2, p);
        let f2 = s2.filter(p);
        assert forall|k: int| 0 <= k < s.filter(p).len() implies exists|j: int|
            0 <= j < s.len() && s[j] == #[trigger] s.filter(p)[k] by {
            if k < f2.len() {
                let j = choose|j: int| 0 <= j < s2.len() && s2[j] == #[trigger] f2[k];
                assert(s[j] == s2[j]);
            } else {
                assert(s.filter(p)[k] == s[s.len() - 1]);
            }
        }
    }
}

/// A relation that holds of every ordered pair of a sequence holds of every ordered pair of
/// a filter of it.
pub proof fn lemma_filter_keeps_pairs<A>(s: Seq<A>, p: spec_fn(A) -> bool, rel: spec_fn(A, A) -> bool)
    requires
        forall|i: int, j: int| 0 <= i < j < s.len() ==> #[trigger] rel(s[i], s[j]),
    ensures
        forall|i: int, j: int|
            0 <= i < j < s.filter(p).len() ==> #[trigger] rel(s.filter(p)[i], s.filter(p)[j]),
    decreases s.len(),
{
    reveal(Seq::filter);
    if s.len() > 0 {
        let s2 = s.drop_last();
        assert forall|i: int, j: int| 0 <= i < j < s2.len() implies #[trigger] rel(s2[i], s2[j]) by {
            assert(rel(s[i], s[j]));
        }
        lemma_filter_keeps_pairs(s2, p, rel);
        lemma_filter_from(s2, p);
        let f2 = s2.filter(p);
        let f = s.filter(p);
        assert forall|i: int, j: int| 0 <= i < j < f.len() implies #[trigger] rel(f[i], f[j]) by {
            if j < f2.len() {
                assert(f[i] == f2[i] && f[j] == f2[j]);
                assert(rel(f2[i], f2[j]));
            } else {
                assert(f[i] == f2[i]);
                let m = choose|m: int| 0 <= m < s2.len() && s2[m] == #[trigger] f2[i];
                assert(rel(s[m], s[s.len() - 1]));
            }
        }
    }
}

/// Every element a filter keeps satisfies a property every element of the filtered sequence has.
pub proof fn lemma_filter_keeps_all<A>(s: Seq<A>, p: spec_fn(A) -> bool, q: spec_fn(A) -> bool)
    requires
        forall|i: int| 0 <= i < s.len() ==> #[trigger] q(s[i]),
    ensures
        forall|i: int| 0 <= i < s.filter(p).len() ==> #[trigger] q(s.filter(p)[i]),
{
    lemma_filter_from(s, p);
    assert forall|i: int| 0 <= i < s.filter(p).len() implies #[trigger] q(s.filter(p)[i]) by {
        let j = choose|j: int| 0 <= j < s.len() && s[j] == #[trigger] s.filter(p)[i];
        assert(q(s[j]));
    }
}

} // verus!
