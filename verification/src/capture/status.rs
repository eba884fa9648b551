//! How far the capture is.

use vstd::prelude::*;

verus! {

/// Not started yet.
pub const STATE_INIT: u8 = 0;

/// Running.
pub const STATE_RUNNING: u8 = 1;

/// The capture could not be started.
pub const STATE_FAILED: u8 = 2;

/// Counters of the capture. Times are Unix milliseconds, 0 where nothing was seen yet.
#[derive(Debug, Clone, Copy, PartialEq, Eq, Structural)]
pub struct CaptureStatus {
    pub capture_state: u8,
    pub packets_total: u64,
    /// When the last packet was seen.
    pub last_packet_unix_ms: u64,
    /// When the last packet of the game was processed.
    pub last_game_packet_unix_ms: u64,
}

impl CaptureStatus {
    /// Nothing was seen yet.
    pub fn new() -> (s: CaptureStatus)
        ensures
            s == (CaptureStatus {
                capture_state: STATE_INIT,
                packets_total: 0,
                last_packet_unix_ms: 0,
                last_game_packet_unix_ms: 0,
            }),
    {
        CaptureStatus {
            capture_state: STATE_INIT,
            packets_total: 0,
            last_packet_unix_ms: 0,
            last_game_packet_unix_ms: 0,
        }
    }
}

/// Notes the state of the capture.
pub fn set_state(status: &mut CaptureStatus, state: u8)
    ensures
        *final(status) == (CaptureStatus { capture_state: state, ..*old(status) }),
{
    status.capture_state = state;
}

/// The state of the capture.
pub fn state(status: &CaptureStatus) -> (state: u8)
    ensures
        state == status.capture_state,
{
    status.capture_state
}

/// Notes a packet that was seen at `now`. The count starts anew after its largest value.
pub fn mark_packet(status: &mut CaptureStatus, now: u64)
    ensures
        *final(status) == (CaptureStatus {
            packets_total: ((old(status).packets_total + 1) % 0x1_0000_0000_0000_0000) as u64,
            last_packet_unix_ms: now,
            ..*old(status)
        }),
{
    status.packets_total = if status.packets_total == u64::MAX {
        0
    } else {
        status.packets_total + 1
    };
    status.last_packet_unix_ms = now;
}

/// Notes a packet of the game that is processed at `now`.
pub fn mark_game_packet(status: &mut CaptureStatus, now: u64)
    ensures
        *final(status) == (CaptureStatus { last_game_packet_unix_ms: now, ..*old(status) }),
{
    status.last_game_packet_unix_ms = now;
}

/// The milliseconds from a time to `now` (0 where it lies ahead); `None` where nothing was seen.
pub fn ms_since(unix_ms_value: u64, now: u64) -> (elapsed: Option<u64>)
    ensures
        elapsed is None <==> unix_ms_value == 0,
        elapsed matches Some(ms) ==> ms == if now < unix_ms_value {
            0
        } else {
            now - unix_ms_value
        },
{
    if unix_ms_value == 0 {
        return None;
    }
    if now < unix_ms_value {
        Some(0)
    } else {
        Some(now - unix_ms_value)
    }
}

/// The name of a state of the capture.
pub fn state_name(state: u8) -> (name: &'static str)
    ensures
        name@ == if state == STATE_RUNNING {
            "running"@
        } else if state == STATE_FAILED {
            "failed"@
        } else {
            "init"@
        },
{
    if state == STATE_RUNNING {
        "running"
    } else if state == STATE_FAILED {
        "failed"
    } else {
        "init"
    }
}

} // verus!
