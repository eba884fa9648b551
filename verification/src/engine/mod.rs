//! What is made of the messages.

pub mod attributes;
pub mod buff_action;
pub mod buff_dictionary;
pub mod buff_source;
pub mod buff_state;
pub mod calculator;
pub mod class;
pub mod combat_stats;
pub mod connection;
pub mod consumables;
pub mod damage;
pub mod demo;
pub mod encounter;
pub mod entity;
pub mod event;
pub mod headroom;
pub mod history;
pub mod laws;
pub mod modules;
pub mod name_cache;
pub mod monster_names;
pub mod processor;
pub mod room;
pub mod rules;
pub mod runtime_settings;
pub mod scene;
pub mod selected_uid;
pub mod sampling;
pub mod skill_names;
pub mod totals;
pub(crate) mod walk;
