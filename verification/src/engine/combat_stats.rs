//! Totals of hits.

use crate::protocol::constants::CRIT_BIT;
use crate::protocol::messages::DamageRecord;
use vstd::prelude::*;

verus! {

/// The total of some hits, and of the critical, lucky and plain ones among them.
#[derive(Debug, Clone, Copy, PartialEq, Eq, Structural)]
pub struct CombatStats {
    pub total: i64,
    pub hit_count: u32,
    pub crit_count: u32,
    pub crit_value: i64,
    pub lucky_count: u32,
    pub lucky_value: i64,
    pub normal_value: i64,
}

/// The totals of no hits.
pub open spec fn no_hits() -> CombatStats {
    CombatStats {
        total: 0,
        hit_count: 0,
        crit_count: 0,
        crit_value: 0,
        lucky_count: 0,
        lucky_value: 0,
        normal_value: 0,
    }
}

impl Default for CombatStats {
    fn default() -> (s: CombatStats)
        ensures
            s == no_hits(),
    {
        CombatStats {
            total: 0,
            hit_count: 0,
            crit_count: 0,
            crit_value: 0,
            lucky_count: 0,
            lucky_value: 0,
            normal_value: 0,
        }
    }
}

/// Whether a number keeps within 64 bits.
pub open spec fn fits_i64(x: int) -> bool {
    i64::MIN <= x <= i64::MAX
}

/// Whether one more hit keeps the numbers that it changes within their ranges.
pub open spec fn fits_hit(s: CombatStats, value: int, is_crit: bool, is_lucky: bool) -> bool {
    &&& fits_i64(s.total + value)
    &&& s.hit_count + 1 <= u32::MAX
    &&& is_crit ==> s.crit_count + 1 <= u32::MAX && fits_i64(s.crit_value + value)
    &&& is_lucky ==> s.lucky_count + 1 <= u32::MAX && fits_i64(s.lucky_value + value)
    &&& !is_crit && !is_lucky ==> fits_i64(s.normal_value + value)
}

/// The totals with one more hit.
pub open spec fn with_hit(s: CombatStats, value: int, is_crit: bool, is_lucky: bool) -> CombatStats {
    CombatStats {
        total: (s.total + value) as i64,
        hit_count: (s.hit_count + 1) as u32,
        crit_count: if is_crit {
            (s.crit_count + 1) as u32
        } else {
            s.crit_count
        },
        crit_value: if is_crit {
            (s.crit_value + value) as i64
        } else {
            s.crit_value
        },
        lucky_count: if is_lucky {
            (s.lucky_count + 1) as u32
        } else {
            s.lucky_count
        },
        lucky_value: if is_lucky {
            (s.lucky_value + value) as i64
        } else {
            s.lucky_value
        },
        normal_value: if !is_crit && !is_lucky {
            (s.normal_value + value) as i64
        } else {
            s.normal_value
        },
    }
}

impl CombatStats {
    /// Adds a hit.
    pub fn record_hit(&mut self, value: i64, is_crit: bool, is_lucky: bool)
        requires
            fits_hit(*old(self), value as int, is_crit, is_lucky),
        ensures
            *final(self) == with_hit(*old(self), value as int, is_crit, is_lucky),
    {
        self.total = self.total + value;
        self.hit_count = self.hit_count + 1;
        if is_crit {
            self.crit_count = self.crit_count + 1;
            self.crit_value = self.crit_value + value;
        }
        if is_lucky {
            self.lucky_count = self.lucky_count + 1;
            self.lucky_value = self.lucky_value + value;
        }
        if !is_crit && !is_lucky {
            self.normal_value = self.normal_value + value;
        }
    }
}

/// The value of a hit: its lucky value where it has one.
pub open spec fn hit_value(record: DamageRecord) -> i64 {
    if record.lucky_value != 0 {
        record.lucky_value
    } else {
        record.value
    }
}

/// Whether a hit is critical.
pub open spec fn is_crit(record: DamageRecord) -> bool {
    record.type_flag % 2 == 1
}

/// The totals with the hit of a record.
pub open spec fn with_record(s: CombatStats, record: DamageRecord) -> CombatStats {
    with_hit(s, hit_value(record) as int, is_crit(record), record.lucky_value != 0)
}

/// Whether the hit of a record keeps the numbers that it changes within their ranges.
pub open spec fn fits_record(s: CombatStats, record: DamageRecord) -> bool {
    fits_hit(s, hit_value(record) as int, is_crit(record), record.lucky_value != 0)
}

/// Whether the hit of a record fits.
pub fn record_fits(record: &DamageRecord, s: &CombatStats) -> (b: bool)
    ensures
        b == fits_record(*s, *record),
{
    let value: i64 = if record.lucky_value != 0 {
        record.lucky_value
    } else {
        record.value
    };
    let is_lucky: bool = record.lucky_value != 0;
    let flag: i32 = record.type_flag;
    assert((flag & 1 != 0) == (flag % 2 == 1)) by (bit_vector);
    let is_crit: bool = (flag & CRIT_BIT) != 0;
    s.total.checked_add(value).is_some() && s.hit_count < u32::MAX && (!is_crit || (s.crit_count
        < u32::MAX && s.crit_value.checked_add(value).is_some())) && (!is_lucky || (s.lucky_count
        < u32::MAX && s.lucky_value.checked_add(value).is_some())) && (is_crit || is_lucky
        || s.normal_value.checked_add(value).is_some())
}

/// Adds the hit of a record.
pub fn process_stats(record: &DamageRecord, stats: &mut CombatStats)
    requires
        fits_record(*old(stats), *record),
    ensures
        *final(stats) == with_record(*old(stats), *record),
{
    let actual_value: i64 = if record.lucky_value != 0 {
        record.lucky_value
    } else {
        record.value
    };
    let is_lucky: bool = record.lucky_value != 0;
    let flag: i32 = record.type_flag;
    assert((flag & 1 != 0) == (flag % 2 == 1)) by (bit_vector);
    let is_crit: bool = (flag & CRIT_BIT) != 0;
    stats.record_hit(actual_value, is_crit, is_lucky);
}

/// Whether the parts of the totals fit together: hits that are neither critical nor lucky make the
/// rest of the total, where no hit is both.
pub proof fn law_plain_and_special_hits(s: CombatStats, value: int, crit: bool, lucky: bool)
    requires
        fits_hit(s, value, crit, lucky),
        s.total == s.normal_value + s.crit_value + s.lucky_value,
        !(crit && lucky),
    ensures
        ({
            let t = with_hit(s, value, crit, lucky);
            t.total == t.normal_value + t.crit_value + t.lucky_value
        }),
{
}

} // verus!
