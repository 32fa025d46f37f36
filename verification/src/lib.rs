//! Request-processing core of a BitTorrent tracker: swarm state, peer
//! selection, connection tokens, scrape scatter/gather and the UDP wire
//! format, each with a contract that Verus proves.

pub mod access_list;
pub mod bench;
pub mod channel;
pub mod common;
pub mod config;
pub mod connection;
pub mod messages;
pub mod net;
pub mod pending_scrape;
pub mod protocol;
pub mod random;
pub mod seq_util;
pub mod socket;
pub mod split;
pub mod statistics;
pub mod swarm;
pub mod ws;
