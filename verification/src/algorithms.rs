//! The peer-to-peer algorithms, each usable on its own.

pub mod choking;
pub mod content;
pub mod election;
pub mod gossip;
pub mod hashcash;
pub mod heartbeat;
pub mod reputation;
