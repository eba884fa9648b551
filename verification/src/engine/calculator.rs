//! How hits are added to totals.

use crate::engine::combat_stats::{fits_record, process_stats, with_record, CombatStats};
use crate::protocol::messages::DamageRecord;
use vstd::prelude::*;

verus! {

/// A way to add a hit to totals.
pub trait StatisticsCalculator {
    /// The totals with the hit.
    spec fn applied(&self, stats: CombatStats, record: DamageRecord) -> CombatStats;

    /// Adds the hit of a record.
    fn apply(&self, record: &DamageRecord, stats: &mut CombatStats)
        requires
            fits_record(*old(stats), *record),
        ensures
            *final(stats) == self.applied(*old(stats), *record),
    ;
}

/// Adds hits as they are.
pub struct DefaultCalculator;

impl StatisticsCalculator for DefaultCalculator {
    open spec fn applied(&self, stats: CombatStats, record: DamageRecord) -> CombatStats {
        with_record(stats, record)
    }

    fn apply(&self, record: &DamageRecord, stats: &mut CombatStats) {
        process_stats(record, stats);
    }
}

} // verus!
