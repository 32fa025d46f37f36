//! What the socket workers and the swarm workers send each other.

use vstd::prelude::*;

use crate::net::{Ipv4Addr, Ipv6Addr};
use crate::pending_scrape::{PendingScrapeRequest, PendingScrapeResponse};
use crate::protocol::types::{AnnounceRequest, AnnounceResponse, ErrorResponse};

verus! {

/// A request of a client whose connection id was found valid, on its way
/// to the swarm worker that owns its torrents.
#[derive(Debug)]
pub enum ConnectedRequest {
    Announce(AnnounceRequest),
    Scrape(PendingScrapeRequest),
}

/// A swarm worker's answer, on its way back to the socket worker that
/// took the request.
#[derive(Debug)]
pub enum ConnectedResponse {
    AnnounceIpv4(AnnounceResponse<Ipv4Addr>),
    AnnounceIpv6(AnnounceResponse<Ipv6Addr>),
    /// One shard's part of the answer to a scrape.
    Scrape(PendingScrapeResponse),
    Error(ErrorResponse),
}

impl AnnounceResponse<Ipv4Addr> {
    /// The response as a message to the socket worker.
    pub fn into_connected_response(self) -> (r: ConnectedResponse)
        ensures
            r == ConnectedResponse::AnnounceIpv4(self),
    {
        ConnectedResponse::AnnounceIpv4(self)
    }
}

impl AnnounceResponse<Ipv6Addr> {
    /// The response as a message to the socket worker.
    pub fn into_connected_response(self) -> (r: ConnectedResponse)
        ensures
            r == ConnectedResponse::AnnounceIpv6(self),
    {
        ConnectedResponse::AnnounceIpv6(self)
    }
}

} // verus!
