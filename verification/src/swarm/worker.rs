//! What a swarm worker does with a request: apply an announce and list
//! peers, answer a scrape, clean its shard.

use rand::rngs::SmallRng;
use std::collections::BTreeMap;
use vstd::prelude::*;
use vstd::std_specs::btree::spec_btree_map_iter;
use vstd::std_specs::iter::IteratorSpec;

use crate::access_list::{allowed, AccessList};
use crate::common::{
    AnnounceInterval, InfoHash, NumberOfPeers, PeerStatus, TransactionId, ValidUntil,
};
use crate::config::Config;
use crate::messages::{ConnectedRequest, ConnectedResponse};
use crate::net::{CanonicalSocketAddr, Ip, IpAddr, Ipv4Addr, Ipv6Addr};
use crate::pending_scrape::{PendingScrapeRequest, PendingScrapeResponse};
use crate::protocol::types::{
    AnnounceRequest, ErrorResponse, ProtocolAnnounceResponse, TorrentScrapeStatistics,
};
use crate::random::random_below;
use crate::swarm::map::{
    cleaned, order_after_announce, peers_of, report, reported, scrape_statistics, stays,
    TorrentMap,
};
use crate::swarm::peers::{count_status, Peer, PeerEntry};
use crate::swarm::selection::{response_peers, select_peers, selected_entries};
use crate::swarm::torrent::{peers_after_announce, TorrentData};

verus! {

/// The peer that an announce describes, seen from the address `ip`.
pub open spec fn announced_peer<I: Ip>(
    request: AnnounceRequest,
    ip: I,
    valid_until: ValidUntil,
) -> Peer<I> {
    Peer {
        ip_address: ip,
        port: request.port,
        status: PeerStatus::of(request.event, request.bytes_left),
        valid_until,
    }
}

/// Most peers to list for a client that asked for `peers_wanted`: what it
/// asked for, but no more than the tracker hands out at once; the
/// tracker's own limit where the client left the choice to it.
pub open spec fn peers_limit(max_response_peers: usize, peers_wanted: i32) -> usize {
    if peers_wanted <= 0 || peers_wanted > max_response_peers {
        max_response_peers
    } else {
        peers_wanted as usize
    }
}

pub fn calc_max_num_peers_to_take(config: &Config, peers_wanted: i32) -> (limit: usize)
    ensures
        limit == peers_limit(config.protocol.max_response_peers, peers_wanted),
        limit <= config.protocol.max_response_peers,
{
    if peers_wanted <= 0 {
        config.protocol.max_response_peers
    } else {
        let wanted: u32 = peers_wanted as u32;
        if wanted as u64 > config.protocol.max_response_peers as u64 {
            config.protocol.max_response_peers
        } else {
            wanted as usize
        }
    }
}

/// The peers of the announced torrent once the announce is recorded.
pub open spec fn peers_after_request<I: Ip>(
    torrents: Map<InfoHash, Seq<PeerEntry<I>>>,
    request: AnnounceRequest,
    ip: I,
    valid_until: ValidUntil,
) -> Seq<PeerEntry<I>> {
    peers_after_announce(
        peers_of(torrents, request.info_hash),
        request.peer_id,
        announced_peer(request, ip, valid_until),
    )
}

/// Whether `response` is the answer to `request` for a torrent whose peers,
/// the announce recorded, are `peers`, when the walk over them starts at
/// `offset`.
pub open spec fn is_announce_response<I: Ip>(
    response: ProtocolAnnounceResponse<I>,
    config: Config,
    peers: Seq<PeerEntry<I>>,
    request: AnnounceRequest,
    offset: usize,
) -> bool {
    &&& response.transaction_id == request.transaction_id
    &&& response.announce_interval == AnnounceInterval(config.protocol.peer_announce_interval)
    &&& response.leechers == reported(count_status(peers, PeerStatus::Leeching))
    &&& response.seeders == reported(count_status(peers, PeerStatus::Seeding))
    &&& response.peers@ == response_peers(
        selected_entries(
            peers,
            request.peer_id,
            offset,
            peers_limit(config.protocol.max_response_peers, request.peers_wanted),
            PeerStatus::of(request.event, request.bytes_left) == PeerStatus::Seeding,
        ),
    )
}

/// The answer to an announce that is already recorded in `torrent`.
fn respond<I: Ip>(
    config: &Config,
    torrent: &TorrentData<I>,
    request: &AnnounceRequest,
    offset: usize,
) -> (response: ProtocolAnnounceResponse<I>)
    requires
        torrent.wf(),
    ensures
        is_announce_response(response, *config, torrent@, *request, offset),
{
    let status = PeerStatus::from_event_and_bytes_left(request.event, request.bytes_left);
    let limit = calc_max_num_peers_to_take(config, request.peers_wanted);
    let peers = select_peers(
        &torrent.peers,
        &request.peer_id,
        offset,
        limit,
        status == PeerStatus::Seeding,
    );
    ProtocolAnnounceResponse {
        transaction_id: request.transaction_id,
        announce_interval: AnnounceInterval(config.protocol.peer_announce_interval),
        leechers: report(torrent.num_leechers),
        seeders: report(torrent.num_seeders),
        peers,
    }
}

/// Records an announce and answers it, with the walk over the peers
/// starting at `offset` (taken modulo the number of peers).
pub fn announce_with_offset<I: Ip>(
    config: &Config,
    torrents: &mut TorrentMap<I>,
    request: AnnounceRequest,
    peer_ip: I,
    peer_valid_until: ValidUntil,
    offset: usize,
) -> (response: ProtocolAnnounceResponse<I>)
    requires
        old(torrents).wf(),
    ensures
        final(torrents).wf(),
        final(torrents)@ == old(torrents)@.insert(
            request.info_hash,
            peers_after_request(old(torrents)@, request, peer_ip, peer_valid_until),
        ),
        final(torrents).order() == order_after_announce(
            old(torrents).order(),
            old(torrents)@,
            request.info_hash,
        ),
        is_announce_response(
            response,
            *config,
            peers_after_request(old(torrents)@, request, peer_ip, peer_valid_until),
            request,
            offset,
        ),
{
    let status = PeerStatus::from_event_and_bytes_left(request.event, request.bytes_left);
    let peer = Peer {
        ip_address: peer_ip,
        port: request.port,
        status,
        valid_until: peer_valid_until,
    };
    let index = torrents.announce(request.info_hash, request.peer_id, peer);
    assert(torrents.entries@[index as int].data.wf());
    respond(config, &torrents.entries[index].data, &request, offset)
}

/// Records an announce and answers it. The walk over the peers starts at a
/// position drawn from `rng`.
pub fn handle_announce_request<I: Ip>(
    config: &Config,
    rng: &mut SmallRng,
    torrents: &mut TorrentMap<I>,
    request: AnnounceRequest,
    peer_ip: I,
    peer_valid_until: ValidUntil,
) -> (response: ProtocolAnnounceResponse<I>)
    requires
        old(torrents).wf(),
    ensures
        final(torrents).wf(),
        final(torrents)@ == old(torrents)@.insert(
            request.info_hash,
            peers_after_request(old(torrents)@, request, peer_ip, peer_valid_until),
        ),
        final(torrents).order() == order_after_announce(
            old(torrents).order(),
            old(torrents)@,
            request.info_hash,
        ),
        exists|offset: usize|
            is_announce_response(
                response,
                *config,
                peers_after_request(old(torrents)@, request, peer_ip, peer_valid_until),
                request,
                offset,
            ),
{
    let status = PeerStatus::from_event_and_bytes_left(request.event, request.bytes_left);
    let peer = Peer {
        ip_address: peer_ip,
        port: request.port,
        status,
        valid_until: peer_valid_until,
    };
    let index = torrents.announce(request.info_hash, request.peer_id, peer);
    assert(torrents.entries@[index as int].data.wf());
    let num_peers = torrents.entries[index].data.peers.len();
    let offset = if num_peers == 0 {
        0
    } else {
        random_below(rng, num_peers)
    };
    let response = respond(config, &torrents.entries[index].data, &request, offset);
    assert(is_announce_response(
        response,
        *config,
        peers_after_request(old(torrents)@, request, peer_ip, peer_valid_until),
        request,
        offset,
    ));
    response
}

/// Whether `stats` answers the part `info_hashes` of a scrape: one entry
/// for each requested position, with the statistics of the torrent asked
/// for at that position.
pub open spec fn is_scrape_answer<I: Ip>(
    stats: Map<usize, TorrentScrapeStatistics>,
    torrents: Map<InfoHash, Seq<PeerEntry<I>>>,
    info_hashes: Map<usize, InfoHash>,
) -> bool {
    &&& stats.dom() == info_hashes.dom()
    &&& forall|i: usize| #[trigger]
        info_hashes.contains_key(i) ==> stats[i] == scrape_statistics(torrents, info_hashes[i])
}

/// Answers one shard's part of a scrape. The torrents stay as they are.
pub fn handle_scrape_request<I: Ip>(
    torrents: &mut TorrentMap<I>,
    request: PendingScrapeRequest,
) -> (response: PendingScrapeResponse)
    requires
        old(torrents).wf(),
    ensures
        *final(torrents) == *old(torrents),
        response.slab_key == request.slab_key,
        is_scrape_answer(response.torrent_stats@, old(torrents)@, request.info_hashes@),
{
    let mut torrent_stats: BTreeMap<usize, TorrentScrapeStatistics> = BTreeMap::new();
    for kv in it: request.info_hashes.iter()
        invariant
            torrents.wf(),
            *torrents == *old(torrents),
            forall|j: int|
                0 <= j < it.index() ==> torrent_stats@.contains_key(*(#[trigger] it.seq()[j]).0),
            forall|i: usize| #[trigger]
                torrent_stats@.contains_key(i) ==> request.info_hashes@.contains_key(i)
                    && torrent_stats@[i] == scrape_statistics(torrents@, request.info_hashes@[i]),
    {
        let (index, info_hash) = kv;
        assert(request.info_hashes@.contains_key(*index) && request.info_hashes@[*index]
            == *info_hash);
        let stats = torrents.statistics(info_hash);
        torrent_stats.insert(*index, stats);
    }
    proof {
        assert forall|i: usize| request.info_hashes@.contains_key(i) implies torrent_stats@.contains_key(
            i,
        ) by {
            let v = spec_btree_map_iter(&request.info_hashes).remaining();
            assert(v.contains((&i, &request.info_hashes@[i])));
        }
        assert(torrent_stats@.dom() =~= request.info_hashes@.dom());
    }
    PendingScrapeResponse { slab_key: request.slab_key, torrent_stats }
}

/// The torrents of one shard, by address family.
#[derive(Debug)]
pub struct TorrentMaps {
    pub ipv4: TorrentMap<Ipv4Addr>,
    pub ipv6: TorrentMap<Ipv6Addr>,
}

impl Default for TorrentMaps {
    fn default() -> (maps: TorrentMaps)
        ensures
            maps.wf(),
            maps.ipv4@ == Map::<InfoHash, Seq<PeerEntry<Ipv4Addr>>>::empty(),
            maps.ipv6@ == Map::<InfoHash, Seq<PeerEntry<Ipv6Addr>>>::empty(),
    {
        TorrentMaps { ipv4: TorrentMap::new(), ipv6: TorrentMap::new() }
    }
}

impl TorrentMaps {
    pub open spec fn wf(&self) -> bool {
        self.ipv4.wf() && self.ipv6.wf()
    }

    /// Remove disallowed and inactive torrents, and stale peers. The
    /// torrents that stay keep their order.
    pub fn clean(&mut self, config: &Config, access_list: &AccessList, now: u64)
        requires
            old(self).wf(),
        ensures
            final(self).wf(),
            final(self).ipv4@ == cleaned(old(self).ipv4@, access_list@, config.access_list.mode, now),
            final(self).ipv6@ == cleaned(old(self).ipv6@, access_list@, config.access_list.mode, now),
            final(self).ipv4.order() == old(self).ipv4.order().filter(
                stays(old(self).ipv4@, access_list@, config.access_list.mode, now),
            ),
            final(self).ipv6.order() == old(self).ipv6.order().filter(
                stays(old(self).ipv6@, access_list@, config.access_list.mode, now),
            ),
    {
        self.ipv4.clean(access_list, config.access_list.mode, now);
        self.ipv6.clean(access_list, config.access_list.mode, now);
    }

    /// Drops the stale peers of one torrent. Returns true if torrent is to
    /// be kept.
    pub fn clean_torrent_and_peers<I: Ip>(now: u64, torrent: &mut TorrentData<I>) -> (keep: bool)
        requires
            old(torrent).wf(),
        ensures
            final(torrent).wf(),
            final(torrent)@ == crate::swarm::torrent::live_peers(old(torrent)@, now),
            keep == (final(torrent)@.len() > 0),
    {
        torrent.clean(now)
    }
}

/// Whether a swarm worker, by recording the announce `announce` that came
/// from the address `ip` at `now`, turned the torrents `before` into
/// `after` and answered with `response`.
pub open spec fn announce_handled<I: Ip>(
    response: ProtocolAnnounceResponse<I>,
    config: Config,
    before: Map<InfoHash, Seq<PeerEntry<I>>>,
    after: Map<InfoHash, Seq<PeerEntry<I>>>,
    announce: AnnounceRequest,
    ip: I,
    now: u64,
) -> bool {
    let valid_until = ValidUntil(ValidUntil::deadline(now, config.cleaning.max_peer_age));
    let peers = peers_after_request(before, announce, ip, valid_until);
    &&& after == before.insert(announce.info_hash, peers)
    &&& exists|offset: usize| is_announce_response(response, config, peers, announce, offset)
}

/// The message of the error response to an announce of a torrent that the
/// access list does not allow.
pub open spec fn not_allowed_message() -> Seq<char> {
    "Info hash not allowed"@
}

/// What a swarm worker does with a request that a socket worker forwarded
/// from the address `src`.
///
/// An announce of a torrent that the access list does not allow gets an
/// error response and changes nothing. Any other announce is recorded
/// among the torrents of the client's address family and answered with
/// peers of that family; the peer is listed under the address its request
/// came from, whatever address the request names, and is kept for as long
/// as the configuration lets a peer go without an announce. A scrape is
/// answered from the torrents of the client's address family.
pub fn handle_connected_request(
    config: &Config,
    access_list: &AccessList,
    rng: &mut SmallRng,
    torrents: &mut TorrentMaps,
    request: ConnectedRequest,
    src: CanonicalSocketAddr,
    now: u64,
) -> (response: ConnectedResponse)
    requires
        old(torrents).wf(),
    ensures
        final(torrents).wf(),
        request matches ConnectedRequest::Announce(announce) ==> (!allowed(
            access_list@,
            config.access_list.mode,
            announce.info_hash,
        ) ==> {
            &&& response matches ConnectedResponse::Error(e)
            &&& e.transaction_id == announce.transaction_id
            &&& e.message@ == not_allowed_message()
            &&& *final(torrents) == *old(torrents)
        }),
        request matches ConnectedRequest::Announce(announce) ==> (allowed(
            access_list@,
            config.access_list.mode,
            announce.info_hash,
        ) ==> (src.ip matches IpAddr::V4(ip) ==> {
            &&& response matches ConnectedResponse::AnnounceIpv4(a)
            &&& final(torrents).ipv6 == old(torrents).ipv6
            &&& final(torrents).ipv4.order() == order_after_announce(
                old(torrents).ipv4.order(),
                old(torrents).ipv4@,
                announce.info_hash,
            )
            &&& announce_handled(
                a,
                *config,
                old(torrents).ipv4@,
                final(torrents).ipv4@,
                announce,
                ip,
                now,
            )
        })),
        request matches ConnectedRequest::Announce(announce) ==> (allowed(
            access_list@,
            config.access_list.mode,
            announce.info_hash,
        ) ==> (src.ip matches IpAddr::V6(ip) ==> {
            &&& response matches ConnectedResponse::AnnounceIpv6(a)
            &&& final(torrents).ipv4 == old(torrents).ipv4
            &&& final(torrents).ipv6.order() == order_after_announce(
                old(torrents).ipv6.order(),
                old(torrents).ipv6@,
                announce.info_hash,
            )
            &&& announce_handled(
                a,
                *config,
                old(torrents).ipv6@,
                final(torrents).ipv6@,
                announce,
                ip,
                now,
            )
        })),
        request matches ConnectedRequest::Scrape(scrape) ==> {
            &&& *final(torrents) == *old(torrents)
            &&& response matches ConnectedResponse::Scrape(partial)
            &&& partial.slab_key == scrape.slab_key
            &&& src.ip is V4 ==> is_scrape_answer(
                partial.torrent_stats@,
                old(torrents).ipv4@,
                scrape.info_hashes@,
            )
            &&& src.ip is V6 ==> is_scrape_answer(
                partial.torrent_stats@,
                old(torrents).ipv6@,
                scrape.info_hashes@,
            )
        },
{
    match request {
        ConnectedRequest::Announce(announce) => {
            if !access_list.allows(config.access_list.mode, &announce.info_hash) {
                return ConnectedResponse::Error(
                    ErrorResponse {
                        transaction_id: announce.transaction_id,
                        message: "Info hash not allowed".to_owned(),
                    },
                );
            }
            let valid_until = ValidUntil::new(now, config.cleaning.max_peer_age);
            assert(valid_until == ValidUntil(
                ValidUntil::deadline(now, config.cleaning.max_peer_age),
            ));
            match src.ip {
                IpAddr::V4(ip) => {
                    let response = handle_announce_request(
                        config,
                        rng,
                        &mut torrents.ipv4,
                        announce,
                        ip,
                        valid_until,
                    );
                    let ghost peers = peers_after_request(
                        old(torrents).ipv4@,
                        announce,
                        ip,
                        valid_until,
                    );
                    assert(announce_handled(
                        response,
                        *config,
                        old(torrents).ipv4@,
                        torrents.ipv4@,
                        announce,
                        ip,
                        now,
                    ));
                    response.into_connected_response()
                },
                IpAddr::V6(ip) => {
                    let response = handle_announce_request(
                        config,
                        rng,
                        &mut torrents.ipv6,
                        announce,
                        ip,
                        valid_until,
                    );
                    let ghost peers = peers_after_request(
                        old(torrents).ipv6@,
                        announce,
                        ip,
                        valid_until,
                    );
                    assert(announce_handled(
                        response,
                        *config,
                        old(torrents).ipv6@,
                        torrents.ipv6@,
                        announce,
                        ip,
                        now,
                    ));
                    response.into_connected_response()
                },
            }
        },
        ConnectedRequest::Scrape(scrape) => {
            match src.ip {
                IpAddr::V4(_) => ConnectedResponse::Scrape(
                    handle_scrape_request(&mut torrents.ipv4, scrape),
                ),
                IpAddr::V6(_) => ConnectedResponse::Scrape(
                    handle_scrape_request(&mut torrents.ipv6, scrape),
                ),
            }
        },
    }
}

/// With a valid configuration, the answer to an announce fits into one
/// datagram, whichever family its peers are of.
pub proof fn lemma_announce_response_fits_packet<I: Ip>(
    response: ProtocolAnnounceResponse<I>,
    config: Config,
    peers: Seq<PeerEntry<I>>,
    request: AnnounceRequest,
    offset: usize,
)
    requires
        config.wf(),
        is_announce_response(response, config, peers, request, offset),
    ensures
        response.peers@.len() <= config.protocol.max_response_peers,
        20 + 18 * response.peers@.len() <= crate::common::MAX_PACKET_SIZE,
        20 + 6 * response.peers@.len() <= crate::common::MAX_PACKET_SIZE,
{
    let limit = peers_limit(config.protocol.max_response_peers, request.peers_wanted);
    let chosen = selected_entries(
        peers,
        request.peer_id,
        offset,
        limit,
        PeerStatus::of(request.event, request.bytes_left) == PeerStatus::Seeding,
    );
    assert(chosen.len() <= limit);
    assert(response_peers(chosen).len() == chosen.len());
}

} // verus!
