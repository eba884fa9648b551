//! From captured packets to the frames of the game.

pub mod any_order;
pub mod binary_reader;
pub mod detection;
pub mod laws;
pub mod opening;
pub mod packet;
pub mod server;
pub mod status;
pub mod tcp_reassembler;
pub mod tracker;
