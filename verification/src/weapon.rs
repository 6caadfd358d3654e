//! A weapon's record while kills are gathered, and its summary.

use vstd::prelude::*;
use crate::tally::Joinable;
use crate::top::Ranked;

verus! {

/// What is gathered about one weapon: its kills, and the distances of the
/// kills whose positions were known.
///
/// Distances are in hundredths of a unit: each kill's distance is rounded
/// to the nearest hundredth before it is added.
#[derive(Clone, Copy, Debug, PartialEq, Eq, Structural)]
pub struct WeaponStats {
    /// Kills made with the weapon.
    pub deaths: u32,
    /// Sum of the distances of the kills whose positions were known.
    pub distance_total: u64,
    /// Number of kills whose positions were known.
    pub distance_count: u64,
}

/// The view of a weapon's gathered record.
pub struct WeaponStatsView {
    pub deaths: nat,
    pub distance_total: nat,
    pub distance_count: nat,
}

impl View for WeaponStats {
    type V = WeaponStatsView;

    open spec fn view(&self) -> WeaponStatsView {
        WeaponStatsView {
            deaths: self.deaths as nat,
            distance_total: self.distance_total as nat,
            distance_count: self.distance_count as nat,
        }
    }
}

/// How two records of the same weapon combine: each part adds up.
pub open spec fn join_stats() -> spec_fn(WeaponStatsView, WeaponStatsView) -> WeaponStatsView {
    |x: WeaponStatsView, y: WeaponStatsView|
        WeaponStatsView {
            deaths: x.deaths + y.deaths,
            distance_total: x.distance_total + y.distance_total,
            distance_count: x.distance_count + y.distance_count,
        }
}

impl WeaponStats {
    /// A weapon with no kills.
    pub fn new() -> (s: WeaponStats)
        ensures
            s@ == (WeaponStatsView { deaths: 0, distance_total: 0, distance_count: 0 }),
    {
        WeaponStats { deaths: 0, distance_total: 0, distance_count: 0 }
    }
}

impl Joinable for WeaponStats {
    open spec fn joiner() -> spec_fn(WeaponStatsView, WeaponStatsView) -> WeaponStatsView {
        join_stats()
    }

    open spec fn joins(x: WeaponStatsView, y: WeaponStatsView) -> bool {
        &&& x.deaths + y.deaths <= u32::MAX
        &&& x.distance_total + y.distance_total <= u64::MAX
        &&& x.distance_count + y.distance_count <= u64::MAX
    }

    fn joins_with(&self, other: &WeaponStats) -> (r: bool) {
        self.deaths <= u32::MAX - other.deaths && self.distance_total <= u64::MAX
            - other.distance_total && self.distance_count <= u64::MAX - other.distance_count
    }

    fn join(self, other: WeaponStats) -> (r: WeaponStats) {
        WeaponStats {
            deaths: self.deaths + other.deaths,
            distance_total: self.distance_total + other.distance_total,
            distance_count: self.distance_count + other.distance_count,
        }
    }
}

/// The summary of one weapon.
///
/// Both figures are in hundredths, rounded half up; `None` stands for a
/// figure that is undefined because it divides by zero.
#[derive(Clone, Copy, Debug, PartialEq, Eq, Structural)]
pub struct Weapon {
    /// Share of all kills made with the weapon, in hundredths of a percent;
    /// `None` when no kill was made with any weapon.
    pub deaths_percentage: Option<u64>,
    /// Average distance of the kills whose positions were known, in
    /// hundredths of a unit; `None` when there is no such kill.
    pub average_distance: Option<u64>,
}

impl View for Weapon {
    type V = Weapon;

    open spec fn view(&self) -> Weapon {
        *self
    }
}

impl Ranked for Weapon {
    /// Weapons rank by their share of kills; an undefined share counts as
    /// zero (it only occurs when every weapon's share is undefined).
    open spec fn score_of(w: Weapon) -> int {
        match w.deaths_percentage {
            Some(p) => p as int,
            None => 0,
        }
    }

    fn score(&self) -> (r: u64) {
        match self.deaths_percentage {
            Some(p) => p,
            None => 0,
        }
    }
}

} // verus!
