use vstd::prelude::*;

use crate::money::Money;

verus! {

pub const SILVER_INTERVAL_SECONDS: u64 = 10;
pub const GOLD_INTERVAL_SECONDS: u64 = 60;
pub const DIAMOND_INTERVAL_SECONDS: u64 = 3_600;

pub const SILVER_WEIGHT: u64 = 1;
pub const GOLD_WEIGHT: u64 = 6;
pub const DIAMOND_WEIGHT: u64 = 360;

pub const SILVER_PER_HOUR: u64 = 300;
pub const GOLD_PER_HOUR: u64 = 59;

/// Reward counts: how many Silver, Gold and Diamond events.
#[derive(Clone, Copy, Debug, PartialEq, Eq, Structural)]
pub struct RewardCounts {
    pub silver: u64,
    pub gold: u64,
    pub diamond: u64,
}

/// The deterministic entitlement of accumulated effective work seconds: one event per
/// 10-second boundary; a 60-second boundary gives Gold instead of Silver and a 3600-second
/// boundary gives Diamond instead of Gold or Silver.
pub open spec fn counts_for_seconds(s: int) -> (int, int, int) {
    (s / 10 - s / 60, s / 60 - s / 3600, s / 3600)
}

/// The reward counts of accumulated effective work seconds.
pub open spec fn counts_of_seconds(s: u64) -> RewardCounts {
    RewardCounts {
        silver: (s / 10 - s / 60) as u64,
        gold: (s / 60 - s / 3600) as u64,
        diamond: (s / 3600) as u64,
    }
}

impl RewardCounts {
    pub open spec fn spec_triple(self) -> (int, int, int) {
        (self.silver as int, self.gold as int, self.diamond as int)
    }

    pub open spec fn spec_total(self) -> int {
        self.silver + self.gold + self.diamond
    }

    /// `silver * 1 + gold * 6 + diamond * 360`.
    pub open spec fn spec_weighted(self) -> int {
        self.silver * SILVER_WEIGHT + self.gold * GOLD_WEIGHT + self.diamond * DIAMOND_WEIGHT
    }

    pub open spec fn is_zero(self) -> bool {
        self.silver == 0 && self.gold == 0 && self.diamond == 0
    }

    /// The counts are a whole number of complete hours (300 Silver, 59 Gold and 1 Diamond
    /// per hour) and at least one.
    pub open spec fn spec_complete_hours(self) -> Option<u64> {
        if self.diamond > 0 && self.silver == SILVER_PER_HOUR * self.diamond && self.gold
            == GOLD_PER_HOUR * self.diamond {
            Some(self.diamond)
        } else {
            None
        }
    }

    /// Every count of `self` is at most the matching count of `other`.
    pub open spec fn le(self, other: RewardCounts) -> bool {
        self.silver <= other.silver && self.gold <= other.gold && self.diamond <= other.diamond
    }

    /// The deterministic reward entitlement of accumulated effective work seconds.
    pub fn from_work_seconds(work_seconds: u64) -> (res: RewardCounts)
        ensures
            res.spec_triple() == counts_for_seconds(work_seconds as int),
            res == counts_of_seconds(work_seconds),
            res.spec_total() == work_seconds / 10,
    {
        let diamond = work_seconds / DIAMOND_INTERVAL_SECONDS;
        let gold = work_seconds / GOLD_INTERVAL_SECONDS - diamond;
        let silver = work_seconds / SILVER_INTERVAL_SECONDS - work_seconds / GOLD_INTERVAL_SECONDS;
        RewardCounts { silver, gold, diamond }
    }

    /// The number of events.
    pub fn total_events(self) -> (res: u64)
        requires
            self.spec_total() <= u64::MAX,
        ensures
            res as int == self.spec_total(),
    {
        self.silver + self.gold + self.diamond
    }

    /// The events weighted by denomination: `silver * 1 + gold * 6 + diamond * 360`.
    pub fn weighted_units(self) -> (res: Money)
        ensures
            res@ == (self.spec_weighted(), 0nat),
    {
        let silver = Money::from_u64(self.silver).checked_mul(Money::from_u64(SILVER_WEIGHT)).unwrap();
        let gold = Money::from_u64(self.gold).checked_mul(Money::from_u64(GOLD_WEIGHT)).unwrap();
        let diamond = Money::from_u64(self.diamond).checked_mul(
            Money::from_u64(DIAMOND_WEIGHT),
        ).unwrap();
        let partial = silver.checked_add(gold).unwrap();
        partial.checked_add(diamond).unwrap()
    }

    /// The number of complete hours the counts make up, if they make up a whole number of
    /// them (and at least one).
    pub fn complete_hours(self) -> (res: Option<u64>)
        ensures
            res == self.spec_complete_hours(),
    {
        let hours = self.diamond;
        let expected_silver = match SILVER_PER_HOUR.checked_mul(hours) {
            Some(v) => v,
            None => {
                return None;
            },
        };
        let expected_gold = match GOLD_PER_HOUR.checked_mul(hours) {
            Some(v) => v,
            None => {
                return None;
            },
        };
        if hours > 0 && self.silver == expected_silver && self.gold == expected_gold {
            Some(hours)
        } else {
            None
        }
    }
}

impl Default for RewardCounts {
    fn default() -> (res: RewardCounts)
        ensures
            res.is_zero(),
    {
        RewardCounts { silver: 0, gold: 0, diamond: 0 }
    }
}

} // verus!
