mod reconciliation;

pub use reconciliation::{
    after_ensuring, duplicate_at, entitlement_rows, first_invalid, invalid_at, live_materialized, offline_reconciled, refusal_of,
    DailyEntitlement,
    RewardLedgerService, MAX_PENDING_LIVE_REWARDS,
};
