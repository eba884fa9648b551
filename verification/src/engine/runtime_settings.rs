//! Settings that can change while the program runs.

use vstd::prelude::*;

verus! {

/// The settings.
#[derive(Debug, Clone, Copy, PartialEq, Eq, Structural)]
pub struct RuntimeSettings {
    /// After this long without a hit a new encounter begins (0: never).
    pub combat_exit_timeout_ms: u64,
    /// The number of encounters that are remembered.
    pub history_limit: usize,
    /// The time between two samples of the course of an encounter (0: none are taken).
    pub ts_interval_ms: u64,
    /// The number of samples that are kept.
    pub ts_samples: usize,
    /// Only effects on players are followed.
    pub imagine_only_mode: bool,
}

impl Default for RuntimeSettings {
    fn default() -> (s: RuntimeSettings)
        ensures
            s == (RuntimeSettings {
                combat_exit_timeout_ms: 8000,
                history_limit: 20,
                ts_interval_ms: 1000,
                ts_samples: 60,
                imagine_only_mode: false,
            }),
    {
        RuntimeSettings {
            combat_exit_timeout_ms: 8000,
            history_limit: 20,
            ts_interval_ms: 1000,
            ts_samples: 60,
            imagine_only_mode: false,
        }
    }
}

/// Whether only effects on players are followed.
pub fn imagine_only_mode(settings: &RuntimeSettings) -> (b: bool)
    ensures
        b == settings.imagine_only_mode,
{
    settings.imagine_only_mode
}

} // verus!
