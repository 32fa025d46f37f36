//! The swarm worker's state: the torrents of one shard and their peers.

pub mod map;
pub mod peers;
pub mod selection;
pub mod torrent;
pub mod worker;
