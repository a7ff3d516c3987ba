use vstd::prelude::*;

use super::RewardCounts;

verus! {

/// The denomination of one reward event.
#[derive(Clone, Copy, Debug, PartialEq, Eq, Structural)]
pub enum RewardType {
    Silver,
    Gold,
    Diamond,
}

/// The type of the event at a 1-based event index: the boundary `10 * index` seconds gives
/// Diamond on whole hours, Gold on whole minutes and Silver otherwise.
pub open spec fn event_type_spec(event_index: int) -> Option<RewardType> {
    if event_index <= 0 || event_index * 10 > u64::MAX {
        None
    } else if (event_index * 10) % 3600 == 0 {
        Some(RewardType::Diamond)
    } else if (event_index * 10) % 60 == 0 {
        Some(RewardType::Gold)
    } else {
        Some(RewardType::Silver)
    }
}

impl RewardType {
    /// The counts of a single event of this type.
    pub open spec fn unit_triple(self) -> (int, int, int) {
        match self {
            RewardType::Silver => (1, 0, 0),
            RewardType::Gold => (0, 1, 0),
            RewardType::Diamond => (0, 0, 1),
        }
    }

    pub open spec fn code_spec(self) -> Seq<char> {
        match self {
            RewardType::Silver => "SILVER"@,
            RewardType::Gold => "GOLD"@,
            RewardType::Diamond => "DIAMOND"@,
        }
    }

    /// The type of the event at a 1-based index (none for index zero or an index whose
    /// boundary overflows).
    pub fn for_event_index(event_index: u64) -> (res: Option<RewardType>)
        ensures
            res == event_type_spec(event_index as int),
    {
        if event_index == 0 {
            return None;
        }
        let boundary_seconds = match event_index.checked_mul(10) {
            Some(b) => b,
            None => {
                return None;
            },
        };
        Some(
            if boundary_seconds % 3_600 == 0 {
                RewardType::Diamond
            } else if boundary_seconds % 60 == 0 {
                RewardType::Gold
            } else {
                RewardType::Silver
            },
        )
    }

    pub fn as_code(self) -> (res: &'static str)
        ensures
            res@ == self.code_spec(),
    {
        match self {
            RewardType::Silver => "SILVER",
            RewardType::Gold => "GOLD",
            RewardType::Diamond => "DIAMOND",
        }
    }

    /// The counts of a single event of this type.
    pub fn counts(self) -> (res: RewardCounts)
        ensures
            res.spec_triple() == self.unit_triple(),
    {
        match self {
            RewardType::Silver => RewardCounts { silver: 1, gold: 0, diamond: 0 },
            RewardType::Gold => RewardCounts { silver: 0, gold: 1, diamond: 0 },
            RewardType::Diamond => RewardCounts { silver: 0, gold: 0, diamond: 1 },
        }
    }
}

} // verus!
