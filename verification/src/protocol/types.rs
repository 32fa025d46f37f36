//! The messages of the UDP tracker protocol, as typed values.

use vstd::prelude::*;

use crate::common::{
    AnnounceEvent, AnnounceInterval, ConnectionId, InfoHash, NumberOfBytes, NumberOfDownloads,
    NumberOfPeers, PeerId, PeerKey, Port, TransactionId,
};
use crate::net::{Ipv4Addr, Ipv6Addr};

verus! {

/// Number that opens every connect request.
pub const PROTOCOL_IDENTIFIER: u64 = 0x41727101980;

/// Number of peers a client asks for when it leaves the choice to the
/// tracker.
pub const PEERS_WANTED_TRACKER_CHOICE: i32 = -1;

#[derive(Clone, Copy, Debug, PartialEq, Eq)]
pub struct ConnectRequest {
    pub transaction_id: TransactionId,
}

#[derive(Clone, Copy, Debug, PartialEq, Eq)]
pub struct AnnounceRequest {
    pub connection_id: ConnectionId,
    pub transaction_id: TransactionId,
    pub info_hash: InfoHash,
    pub peer_id: PeerId,
    pub bytes_downloaded: NumberOfBytes,
    pub bytes_left: NumberOfBytes,
    pub bytes_uploaded: NumberOfBytes,
    pub event: AnnounceEvent,
    /// Address the client wants to be listed under; `None` stands for the
    /// address its datagram came from.
    pub ip_address: Option<Ipv4Addr>,
    pub key: PeerKey,
    /// Number of peers the client asks for; zero or less leaves the choice
    /// to the tracker.
    pub peers_wanted: i32,
    pub port: Port,
}

#[derive(Clone, Debug, PartialEq, Eq)]
pub struct ScrapeRequest {
    pub connection_id: ConnectionId,
    pub transaction_id: TransactionId,
    pub info_hashes: Vec<InfoHash>,
}

#[derive(Clone, Debug, PartialEq, Eq)]
pub enum Request {
    Connect(ConnectRequest),
    Announce(AnnounceRequest),
    Scrape(ScrapeRequest),
}

#[derive(Clone, Copy, Debug, PartialEq, Eq)]
pub struct ConnectResponse {
    pub connection_id: ConnectionId,
    pub transaction_id: TransactionId,
}

/// Address and port of a peer, as an announce response lists them.
#[derive(Clone, Copy, Debug, PartialEq, Eq)]
pub struct ProtocolResponsePeer<I> {
    pub ip_address: I,
    pub port: Port,
}

/// The answer to an announce: how long to wait before the next one, how
/// many peers the torrent has, and where to find some of them.
#[derive(Clone, Debug, PartialEq, Eq)]
pub struct ProtocolAnnounceResponse<I> {
    pub transaction_id: TransactionId,
    pub announce_interval: AnnounceInterval,
    pub leechers: NumberOfPeers,
    pub seeders: NumberOfPeers,
    pub peers: Vec<ProtocolResponsePeer<I>>,
}

pub type ResponsePeer<I> = ProtocolResponsePeer<I>;

pub type AnnounceResponse<I> = ProtocolAnnounceResponse<I>;

/// What a scrape reports of one torrent.
#[derive(Clone, Copy, Debug, PartialEq, Eq, Structural)]
pub struct TorrentScrapeStatistics {
    pub seeders: NumberOfPeers,
    pub completed: NumberOfDownloads,
    pub leechers: NumberOfPeers,
}

#[derive(Clone, Debug, PartialEq, Eq)]
pub struct ScrapeResponse {
    pub transaction_id: TransactionId,
    pub torrent_stats: Vec<TorrentScrapeStatistics>,
}

#[derive(Clone, Debug, PartialEq, Eq)]
pub struct ErrorResponse {
    pub transaction_id: TransactionId,
    pub message: String,
}

#[derive(Clone, Debug, PartialEq, Eq)]
pub enum Response {
    Connect(ConnectResponse),
    AnnounceIpv4(AnnounceResponse<Ipv4Addr>),
    AnnounceIpv6(AnnounceResponse<Ipv6Addr>),
    Scrape(ScrapeResponse),
    Error(ErrorResponse),
}

/// What a scrape reports of a torrent that the tracker does not know.
pub open spec fn no_statistics() -> TorrentScrapeStatistics {
    TorrentScrapeStatistics {
        seeders: NumberOfPeers(0),
        completed: NumberOfDownloads(0),
        leechers: NumberOfPeers(0),
    }
}

} // verus!
