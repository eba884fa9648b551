//! Module optimizer core for Blue Protocol: Star Resonance.

pub mod attrs;
pub mod capture;
pub mod command_line;
pub mod compute;
pub mod engine;
pub mod error;
pub mod inventory;
pub mod models;
pub mod optimizer;
pub mod order;
mod parallel;
pub mod protocol;
pub mod text;
