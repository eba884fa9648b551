//! The messages of the game and how they are framed.

pub mod compression;
pub mod constants;
pub mod decoding;
pub mod messages;
pub mod opcodes;
pub mod packet_parser;
pub mod wire;
