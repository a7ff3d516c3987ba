mod error;
mod laws;
mod models;
mod rows;
mod store;

pub use error::PersistenceError;
pub use models::{
    CollectionLedgerEntry, DailyRewardState, LiveRewardEvent, LiveRewardStatus, OfflineRewardBag,
    OfflineRewardBagItem, PayrollCycleRecord, WalletTotals,
};
pub use rows::{
    bag_lookup, bags_sorted, bags_unique, daily_key, daily_lookup, daily_unique, event_le, event_lookup,
    events_sorted, events_unique, lemma_filter_from, ledger_lookup, ledger_sorted, ledger_unique,
};
pub use store::{
    checked_add_counts, claim_outcome, collect_outcome, counts_ordered, counts_to_sql, cycle_lookup,
    dates_distinct, ensure_outcome, full_day_counts, is_event_prefix, lemma_counts_of_seconds_triple,
    bags_of, has_word_char, last_value_for, ledger_count_sums, ledger_of, ledger_value_sum,
    ledger_values_in_range, pending_of, triple_fits_u64, cycles_kept, cycle_packable, ids_fresh,
    packaged_with_ids, materialize_outcome, package_outcome, reconcile_outcome, saturating_sub_counts, setting_lookup,
    LedgerStore,
};
pub use laws::{
    law_bag_claimed_at_most_once, law_cycles_keep_reward_state_isolated, law_live_reward_collected_at_most_once,
    law_only_settlements_change_the_wallet, law_packaging_again_creates_no_bag,
    law_packaged_bags_follow_cycle_id_order, law_packaged_events_never_credit_the_wallet,
    law_reconcile_is_idempotent, law_settlement_adds_one_wallet_entry, law_entitled_counts_never_decrease,
    law_materialize_again_creates_nothing, law_payroll_cycle_snapshot_is_frozen,
};
