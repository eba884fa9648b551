//! The state of an effect.

use vstd::prelude::*;

verus! {

/// An effect on a player at some time.
#[derive(Debug, Clone, Copy, PartialEq, Eq, Structural)]
pub struct BuffStateSnapshot {
    pub buff_uuid: i32,
    pub base_id: i32,
    pub fire_uuid: i64,
    pub received_at_local_ms: u128,
    pub duration_ms: i64,
    pub remaining_ms: i64,
    pub layer: i32,
    pub count: i32,
    pub create_time_server: i64,
}

} // verus!
