use vstd::prelude::*;

use crate::text::{concat, spec_u64_text, u64_text};

verus! {

/// Why a ledger operation was refused. A refused operation leaves the ledger unchanged.
#[derive(Debug, PartialEq, Eq)]
pub enum PersistenceError {
    /// The storage underneath the ledger failed (reported by the storage layer).
    Storage(String),
    /// A payroll cycle id is empty or blank.
    EmptyCycleId,
    /// A setting key is empty or blank.
    EmptySettingKey,
    /// A cycle id is already frozen with another payroll snapshot.
    CycleSnapshotConflict(String),
    /// No offline reward bag has this id.
    BagNotFound(String),
    /// The offline reward bag has already been claimed.
    BagAlreadyClaimed(String),
    /// The reconciliation period starts after it ends.
    InvalidPeriod,
    /// Two daily entitlements name the same work date.
    DuplicateEntitlementDate(String),
    /// A daily entitlement has more effective seconds than a full workday.
    EffectiveWorkSecondsOutOfRange { work_date: String, seconds: u64 },
    /// A reward count leaves the range that the ledger stores (signed 64 bits).
    CountOutOfRange,
    /// An exact value leaves the decimal range.
    ValueOutOfRange,
    /// A freshly generated id is already in use.
    DuplicateId(String),
    /// A ledger invariant would be broken.
    InvariantViolation(&'static str),
    /// No live reward event has this id.
    LiveRewardNotFound(String),
    /// The live reward event is no longer pending.
    LiveRewardAlreadySettled { event_id: String, status: String },
}

} // verus!

verus! {

impl PersistenceError {
    /// The error's message, as a text.
    pub open spec fn message_spec(self) -> Seq<char> {
        match self {
            PersistenceError::Storage(detail) => "storage operation failed: "@ + detail@,
            PersistenceError::EmptyCycleId => "payroll cycle id must not be empty"@,
            PersistenceError::EmptySettingKey => "setting key must not be empty"@,
            PersistenceError::CycleSnapshotConflict(id) => "payroll cycle snapshot conflicts with persisted cycle `"@
                + id@ + "`"@,
            PersistenceError::BagNotFound(id) => "offline reward bag `"@ + id@ + "` was not found"@,
            PersistenceError::BagAlreadyClaimed(id) => "offline reward bag `"@ + id@ + "` has already been claimed"@,
            PersistenceError::InvalidPeriod => "invalid reconciliation period: period_start is after period_end"@,
            PersistenceError::DuplicateEntitlementDate(date) => "duplicate daily entitlement for "@ + date@,
            PersistenceError::EffectiveWorkSecondsOutOfRange { work_date, seconds } =>
                "effective work seconds for "@ + work_date@ + " exceed the daily maximum: "@ + spec_u64_text(seconds),
            PersistenceError::CountOutOfRange => "reward count exceeds the stored signed integer range"@,
            PersistenceError::ValueOutOfRange => "exact value exceeds the decimal range"@,
            PersistenceError::DuplicateId(id) => "generated id `"@ + id@ + "` is already in use"@,
            PersistenceError::InvariantViolation(what) => "persistence invariant violated: "@ + what@,
            PersistenceError::LiveRewardNotFound(id) => "live reward event `"@ + id@ + "` was not found"@,
            PersistenceError::LiveRewardAlreadySettled { event_id, status } => "live reward event `"@ + event_id@
                + "` is already "@ + status@,
        }
    }

    /// The error's message.
    pub fn message(&self) -> (res: String)
        ensures
            res@ == self.message_spec(),
    {
        match self {
            PersistenceError::Storage(detail) => concat("storage operation failed: ", detail.as_str()),
            PersistenceError::EmptyCycleId => "payroll cycle id must not be empty".to_string(),
            PersistenceError::EmptySettingKey => "setting key must not be empty".to_string(),
            PersistenceError::CycleSnapshotConflict(id) => concat(
                concat("payroll cycle snapshot conflicts with persisted cycle `", id.as_str()).as_str(),
                "`",
            ),
            PersistenceError::BagNotFound(id) => concat(
                concat("offline reward bag `", id.as_str()).as_str(),
                "` was not found",
            ),
            PersistenceError::BagAlreadyClaimed(id) => concat(
                concat("offline reward bag `", id.as_str()).as_str(),
                "` has already been claimed",
            ),
            PersistenceError::InvalidPeriod => "invalid reconciliation period: period_start is after period_end".to_string(),
            PersistenceError::DuplicateEntitlementDate(date) => concat(
                "duplicate daily entitlement for ",
                date.as_str(),
            ),
            PersistenceError::EffectiveWorkSecondsOutOfRange { work_date, seconds } => concat(
                concat(
                    concat("effective work seconds for ", work_date.as_str()).as_str(),
                    " exceed the daily maximum: ",
                ).as_str(),
                u64_text(*seconds).as_str(),
            ),
            PersistenceError::CountOutOfRange => "reward count exceeds the stored signed integer range".to_string(),
            PersistenceError::ValueOutOfRange => "exact value exceeds the decimal range".to_string(),
            PersistenceError::DuplicateId(id) => concat(concat("generated id `", id.as_str()).as_str(), "` is already in use"),
            PersistenceError::InvariantViolation(what) => concat("persistence invariant violated: ", what),
            PersistenceError::LiveRewardNotFound(id) => concat(
                concat("live reward event `", id.as_str()).as_str(),
                "` was not found",
            ),
            PersistenceError::LiveRewardAlreadySettled { event_id, status } => concat(
                concat(
                    concat("live reward event `", event_id.as_str()).as_str(),
                    "` is already ",
                ).as_str(),
                status.as_str(),
            ),
        }
    }
}

} // verus!
