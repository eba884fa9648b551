//! What is shown of an encounter, and what the user can do with it.

pub mod buffs;
pub mod control;
pub mod laws;
pub mod players;
pub mod skills;
pub mod snapshot;

pub use crate::engine::consumables::refresh_consumables;
pub use buffs::{aggregate_player_buffs, get_self_buff_status, get_tracked_buffs};
pub use control::{
    cancel_3min_measure_mode, clear_consumables, clear_history, finalize_3min_locked,
    get_capture_status, get_history, get_measure_mode_status, get_selected_uid, is_paused,
    load_consumables, lookup_name_cache, reset_encounter, seal_3min_series,
    set_combat_exit_timeout, set_history_limit, set_imagine_only_mode, set_selected_uid,
    set_time_series_config, start_3min_measure_mode, toggle_pause, CachedPlayerDto,
    CaptureStatusDto,
};
pub use players::{
    get_dmg_taken_players, get_dps_boss_players, get_dps_players, get_header_info,
    get_heal_players, StatType,
};
pub use skills::{get_dmg_taken_attackers, get_dmg_taken_skills, get_skills};
pub use snapshot::build_encounter_snapshot;
