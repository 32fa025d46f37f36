//! Options that shape how the tracker answers and when it forgets.

use vstd::prelude::*;

verus! {

/// How the access list is applied to an info hash.
#[derive(Clone, Copy, Debug, PartialEq, Eq, Hash, Structural)]
pub enum AccessListMode {
    /// Every info hash is served.
    Off,
    /// Only listed info hashes are served.
    Allow,
    /// Listed info hashes are refused.
    Deny,
}

/// Most IPv6 peers an announce response can carry within one datagram.
pub const MAX_RESPONSE_PEERS_LIMIT: usize = 454;

/// Most info hashes one scrape request can carry.
pub const MAX_SCRAPE_TORRENTS: usize = 74;

#[derive(Clone, Copy, Debug, PartialEq, Eq, Structural)]
pub struct ProtocolConfig {
    /// Most peers handed out in one announce response.
    pub max_response_peers: usize,
    /// Seconds a client is asked to wait between announces.
    pub peer_announce_interval: u32,
}

#[derive(Clone, Copy, Debug, PartialEq, Eq, Structural)]
pub struct CleaningConfig {
    /// Seconds without an announce after which a peer is dropped.
    pub max_peer_age: u64,
    /// Seconds for which a connection id is honoured.
    pub max_connection_age: u64,
    /// Seconds between two cleaning passes over the torrents.
    pub torrent_cleaning_interval: u64,
    /// Seconds between two cleaning passes over the connection ids.
    pub connection_cleaning_interval: u64,
    /// Seconds after which a scrape that was never completed is dropped.
    pub max_pending_scrape_age: u64,
}

#[derive(Clone, Copy, Debug, PartialEq, Eq, Structural)]
pub struct AccessListConfig {
    pub mode: AccessListMode,
}

#[derive(Clone, Copy, Debug, PartialEq, Eq, Structural)]
pub struct StatisticsConfig {
    /// Seconds between two reports; zero switches reporting off.
    pub interval: u64,
}

#[derive(Clone, Copy, Debug, PartialEq, Eq, Structural)]
pub struct Config {
    /// Number of workers that own a socket.
    pub socket_workers: usize,
    /// Number of workers that own a shard of the torrent map.
    pub swarm_workers: usize,
    /// Capacity of each channel between the workers.
    pub worker_channel_size: usize,
    pub protocol: ProtocolConfig,
    pub cleaning: CleaningConfig,
    pub access_list: AccessListConfig,
    pub statistics: StatisticsConfig,
}

impl Config {
    /// The values a tracker starts with when nothing is configured.
    pub open spec fn default_value() -> Config {
        Config {
            socket_workers: 1,
            swarm_workers: 1,
            worker_channel_size: 128,
            protocol: ProtocolConfig { max_response_peers: 255, peer_announce_interval: 900 },
            cleaning: CleaningConfig {
                max_peer_age: 1200,
                max_connection_age: 120,
                torrent_cleaning_interval: 30,
                connection_cleaning_interval: 60,
                max_pending_scrape_age: 60,
            },
            access_list: AccessListConfig { mode: AccessListMode::Off },
            statistics: StatisticsConfig { interval: 0 },
        }
    }

    /// A configuration the workers can run with: there is a worker of each
    /// kind, and a full announce response fits into one datagram.
    pub open spec fn wf(&self) -> bool {
        &&& self.socket_workers > 0
        &&& self.swarm_workers > 0
        &&& self.protocol.max_response_peers <= MAX_RESPONSE_PEERS_LIMIT
    }

    pub fn is_valid(&self) -> (r: bool)
        ensures
            r == self.wf(),
    {
        self.socket_workers > 0 && self.swarm_workers > 0 && self.protocol.max_response_peers
            <= MAX_RESPONSE_PEERS_LIMIT
    }
}

impl Default for Config {
    fn default() -> (config: Config)
        ensures
            config == Config::default_value(),
            config.wf(),
    {
        Config {
            socket_workers: 1,
            swarm_workers: 1,
            worker_channel_size: 128,
            protocol: ProtocolConfig { max_response_peers: 255, peer_announce_interval: 900 },
            cleaning: CleaningConfig {
                max_peer_age: 1200,
                max_connection_age: 120,
                torrent_cleaning_interval: 30,
                connection_cleaning_interval: 60,
                max_pending_scrape_age: 60,
            },
            access_list: AccessListConfig { mode: AccessListMode::Off },
            statistics: StatisticsConfig { interval: 0 },
        }
    }
}

} // verus!
