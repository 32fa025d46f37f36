//! What a socket worker does with a datagram that came in, and with an
//! answer that came back from a swarm worker.

use rand::rngs::SmallRng;
use vstd::prelude::*;

use crate::common::{shard_of, SwarmWorkerIndex, TransactionId, ValidUntil};
use crate::config::{Config, MAX_SCRAPE_TORRENTS};
use crate::connection::{accepts, ConnectionBinding, ConnectionValidator};
use crate::messages::ConnectedResponse;
use crate::net::{CanonicalSocketAddr, IpAddr};
use crate::pending_scrape::{
    assembled, is_split, PendingScrape, PendingScrapeRequest, PendingScrapeResponseSlab,
};
use crate::protocol::request::{
    parsed_request, request_outcome, RequestParseError, RequestView,
};
use crate::protocol::types::{
    AnnounceRequest, ConnectResponse, ErrorResponse, Request, Response,
};

verus! {

/// What is to be done with a datagram.
#[derive(Debug)]
pub enum InboundAction {
    /// Answer the client at once.
    Reply(Response),
    /// Hand the announce to the swarm worker that owns its torrent.
    ForwardAnnounce(SwarmWorkerIndex, AnnounceRequest),
    /// Hand each part of the scrape to the swarm worker that owns its
    /// torrents.
    ForwardScrape(Vec<(SwarmWorkerIndex, PendingScrapeRequest)>),
    /// Send nothing to anyone.
    Drop,
}

/// The message of the error response to a datagram that holds no request.
pub open spec fn parse_error_message() -> Seq<char> {
    "Parse error"@
}

/// What a socket worker does with what it read from a datagram that came
/// from `src` at `now`.
///
/// A datagram that holds no request is answered with an error response if
/// it tells whom to answer, and dropped if not. A connect request is
/// answered with a new connection id for the client's address. An announce
/// or a scrape with a connection id that is not valid for the client's
/// address at `now` is dropped; with a valid one it is forwarded: an
/// announce to the shard of its info hash, a scrape in parts to the shards
/// of its info hashes.
pub fn handle_request(
    config: &Config,
    validator: &mut ConnectionValidator,
    rng: &mut SmallRng,
    pending: &mut PendingScrapeResponseSlab,
    request: Result<Request, RequestParseError>,
    src: CanonicalSocketAddr,
    now: u64,
) -> (action: InboundAction)
    requires
        config.swarm_workers > 0,
    ensures
        request matches Err(RequestParseError::Unsendable { .. }) ==> {
            &&& action is Drop
            &&& final(validator)@ == old(validator)@
            &&& final(pending)@ == old(pending)@
        },
        request matches Err(RequestParseError::Sendable { transaction_id, .. }) ==> {
            &&& action matches InboundAction::Reply(Response::Error(e))
            &&& e.transaction_id == transaction_id
            &&& e.message@ == parse_error_message()
            &&& final(validator)@ == old(validator)@
            &&& final(pending)@ == old(pending)@
        },
        request matches Ok(Request::Connect(connect)) ==> {
            &&& action matches InboundAction::Reply(Response::Connect(r))
            &&& r.transaction_id == connect.transaction_id
            &&& final(validator)@ == old(validator)@.insert(
                r.connection_id.0,
                ConnectionBinding {
                    ip: src.ip,
                    valid_until: ValidUntil(
                        ValidUntil::deadline(now, config.cleaning.max_connection_age),
                    ),
                },
            )
            &&& final(pending)@ == old(pending)@
        },
        request matches Ok(Request::Announce(announce)) ==> {
            &&& final(validator)@ == old(validator)@
            &&& final(pending)@ == old(pending)@
            &&& if accepts(old(validator)@, announce.connection_id, src.ip, now) {
                &&& action matches InboundAction::ForwardAnnounce(index, forwarded)
                &&& index.0 == shard_of(announce.info_hash, config.swarm_workers as int)
                &&& forwarded == announce
            } else {
                action is Drop
            }
        },
        request matches Ok(Request::Scrape(scrape)) ==> {
            &&& final(validator)@ == old(validator)@
            &&& if accepts(old(validator)@, scrape.connection_id, src.ip, now)
                && scrape.info_hashes@.len() > 0 {
                &&& action matches InboundAction::ForwardScrape(parts)
                &&& scrape_pending(
                    old(pending)@,
                    final(pending)@,
                    parts@,
                    scrape.info_hashes@,
                    scrape.transaction_id,
                    config.swarm_workers as int,
                    ValidUntil(ValidUntil::deadline(now, config.cleaning.max_pending_scrape_age)),
                )
            } else {
                &&& action is Drop
                &&& final(pending)@ == old(pending)@
            }
        },
{
    match request {
        Err(RequestParseError::Unsendable { .. }) => InboundAction::Drop,
        Err(RequestParseError::Sendable { transaction_id, .. }) => InboundAction::Reply(
            Response::Error(ErrorResponse { transaction_id, message: "Parse error".to_owned() }),
        ),
        Ok(Request::Connect(connect)) => {
            let (connection_id, valid_until) = validator.issue(
                rng,
                src.ip,
                now,
                config.cleaning.max_connection_age,
            );
            assert(valid_until == ValidUntil(
                ValidUntil::deadline(now, config.cleaning.max_connection_age),
            ));
            InboundAction::Reply(
                Response::Connect(
                    ConnectResponse { connection_id, transaction_id: connect.transaction_id },
                ),
            )
        },
        Ok(Request::Announce(announce)) => {
            if validator.verify(announce.connection_id, src.ip, now) {
                let index = SwarmWorkerIndex::from_info_hash(config, announce.info_hash);
                InboundAction::ForwardAnnounce(index, announce)
            } else {
                InboundAction::Drop
            }
        },
        Ok(Request::Scrape(scrape)) => {
            if validator.verify(scrape.connection_id, src.ip, now) && scrape.info_hashes.len()
                > 0 {
                let valid_until = ValidUntil::new(now, config.cleaning.max_pending_scrape_age);
                assert(valid_until == ValidUntil(
                    ValidUntil::deadline(now, config.cleaning.max_pending_scrape_age),
                ));
                let parts = pending.prepare_split_requests(config, scrape, valid_until);
                InboundAction::ForwardScrape(parts)
            } else {
                InboundAction::Drop
            }
        },
    }
}

/// Whether the pending scrapes `before` became `after` by remembering a
/// scrape of `hashes` that is split into `parts`.
pub open spec fn scrape_pending(
    before: Map<usize, crate::pending_scrape::PendingScrapeResponseSlabEntry>,
    after: Map<usize, crate::pending_scrape::PendingScrapeResponseSlabEntry>,
    parts: Seq<(SwarmWorkerIndex, PendingScrapeRequest)>,
    hashes: Seq<crate::common::InfoHash>,
    transaction_id: TransactionId,
    swarm_workers: int,
    valid_until: ValidUntil,
) -> bool {
    exists|slab_key: usize|
        {
            &&& !before.contains_key(slab_key)
            &&& after.dom() == before.dom().insert(slab_key)
            &&& forall|k: usize| #[trigger] before.contains_key(k) ==> after[k] == before[k]
            &&& after[slab_key]@ == (PendingScrape {
                num_pending: parts.len(),
                valid_until,
                torrent_stats: Map::empty(),
                transaction_id,
                num_hashes: hashes.len(),
            })
            &&& parts.len() > 0
            &&& is_split(parts, hashes, swarm_workers, slab_key)
        }
}

/// What a socket worker does with a datagram that came from the address
/// `ip` at `now`: it maps an IPv4-mapped IPv6 address down to IPv4, reads
/// the request, at most as many info hashes of a scrape as the protocol
/// allows, and goes on as `handle_request` says, with the mapped address as
/// the address of the client.
pub fn handle_datagram(
    config: &Config,
    validator: &mut ConnectionValidator,
    rng: &mut SmallRng,
    pending: &mut PendingScrapeResponseSlab,
    bytes: &[u8],
    ip: IpAddr,
    now: u64,
) -> (action: InboundAction)
    requires
        config.swarm_workers > 0,
    ensures
        parsed_request(bytes@, MAX_SCRAPE_TORRENTS as u8) matches Err(
            RequestParseError::Unsendable { .. },
        ) ==> action is Drop && final(validator)@ == old(validator)@ && final(pending)@ == old(pending)@,
        parsed_request(bytes@, MAX_SCRAPE_TORRENTS as u8) matches Err(
            RequestParseError::Sendable { transaction_id, .. },
        ) ==> {
            &&& action matches InboundAction::Reply(Response::Error(e))
            &&& e.transaction_id == transaction_id
            &&& e.message@ == parse_error_message()
            &&& final(validator)@ == old(validator)@
            &&& final(pending)@ == old(pending)@
        },
        parsed_request(bytes@, MAX_SCRAPE_TORRENTS as u8) matches Ok(
            RequestView::Connect(connect),
        ) ==> {
            &&& action matches InboundAction::Reply(Response::Connect(r))
            &&& r.transaction_id == connect.transaction_id
            &&& final(validator)@ == old(validator)@.insert(
                r.connection_id.0,
                ConnectionBinding {
                    ip: ip.canonical(),
                    valid_until: ValidUntil(
                        ValidUntil::deadline(now, config.cleaning.max_connection_age),
                    ),
                },
            )
            &&& final(pending)@ == old(pending)@
        },
        parsed_request(bytes@, MAX_SCRAPE_TORRENTS as u8) matches Ok(
            RequestView::Announce(announce),
        ) ==> {
            &&& final(validator)@ == old(validator)@
            &&& final(pending)@ == old(pending)@
            &&& if accepts(old(validator)@, announce.connection_id, ip.canonical(), now) {
                &&& action matches InboundAction::ForwardAnnounce(index, forwarded)
                &&& index.0 == shard_of(announce.info_hash, config.swarm_workers as int)
                &&& forwarded == announce
            } else {
                action is Drop
            }
        },
        parsed_request(bytes@, MAX_SCRAPE_TORRENTS as u8) matches Ok(RequestView::Scrape(scrape))
            ==> {
            &&& final(validator)@ == old(validator)@
            &&& if accepts(old(validator)@, scrape.connection_id, ip.canonical(), now) {
                &&& action matches InboundAction::ForwardScrape(parts)
                &&& scrape_pending(
                    old(pending)@,
                    final(pending)@,
                    parts@,
                    scrape.info_hashes,
                    scrape.transaction_id,
                    config.swarm_workers as int,
                    ValidUntil(ValidUntil::deadline(now, config.cleaning.max_pending_scrape_age)),
                )
            } else {
                &&& action is Drop
                &&& final(pending)@ == old(pending)@
            }
        },
{
    let src = CanonicalSocketAddr::new(ip, 0);
    let request = Request::from_bytes(bytes, MAX_SCRAPE_TORRENTS as u8);
    handle_request(config, validator, rng, pending, request, src, now)
}

/// What a socket worker does with an answer that a swarm worker sent back:
/// an answer to an announce and an error go out as they are; a shard's part
/// of the answer to a scrape goes out once it completes the answer, as the
/// complete answer, and is kept until then.
pub fn handle_response(pending: &mut PendingScrapeResponseSlab, response: ConnectedResponse) -> (out:
    Option<Response>)
    ensures
        response matches ConnectedResponse::AnnounceIpv4(a) ==> out == Some(
            Response::AnnounceIpv4(a),
        ) && final(pending)@ == old(pending)@,
        response matches ConnectedResponse::AnnounceIpv6(a) ==> out == Some(
            Response::AnnounceIpv6(a),
        ) && final(pending)@ == old(pending)@,
        response matches ConnectedResponse::Error(e) ==> out == Some(Response::Error(e))
            && final(pending)@ == old(pending)@,
        response matches ConnectedResponse::Scrape(partial) ==> {
            if !old(pending)@.contains_key(partial.slab_key) {
                out is None && final(pending)@ == old(pending)@
            } else {
                let entry = old(pending)@[partial.slab_key]@;
                let merged = entry.torrent_stats.union_prefer_right(partial.torrent_stats@);
                if entry.num_pending <= 1 {
                    &&& final(pending)@ == old(pending)@.remove(partial.slab_key)
                    &&& out matches Some(Response::Scrape(complete))
                    &&& complete.transaction_id == entry.transaction_id
                    &&& complete.torrent_stats@ == assembled(merged, entry.num_hashes)
                } else {
                    &&& out is None
                    &&& final(pending)@.dom() == old(pending)@.dom()
                    &&& forall|k: usize| #[trigger]
                        old(pending)@.contains_key(k) && k != partial.slab_key ==> final(pending)@[k] == old(pending)@[k]
                    &&& final(pending)@[partial.slab_key]@ == (PendingScrape {
                        num_pending: (entry.num_pending - 1) as nat,
                        torrent_stats: merged,
                        ..entry
                    })
                }
            }
        },
{
    match response {
        ConnectedResponse::AnnounceIpv4(a) => Some(Response::AnnounceIpv4(a)),
        ConnectedResponse::AnnounceIpv6(a) => Some(Response::AnnounceIpv6(a)),
        ConnectedResponse::Error(e) => Some(Response::Error(e)),
        ConnectedResponse::Scrape(partial) => {
            match pending.add_and_get_finished(partial) {
                Some(complete) => Some(Response::Scrape(complete)),
                None => None,
            }
        },
    }
}

} // verus!
