use std::collections::BTreeMap;

use rand::rngs::SmallRng;
use rand::SeedableRng;

use tracker_core::access_list::AccessList;
use tracker_core::common::{
    AnnounceEvent, AnnounceInterval, ConnectionId, InfoHash, NumberOfBytes, NumberOfDownloads,
    NumberOfPeers, PeerId, PeerKey, PeerStatus, Port, TransactionId, ValidUntil,
};
use tracker_core::config::{AccessListMode, Config};
use tracker_core::messages::{ConnectedRequest, ConnectedResponse};
use tracker_core::net::{CanonicalSocketAddr, IpAddr, Ipv4Addr, Ipv6Addr};
use tracker_core::pending_scrape::PendingScrapeRequest;
use tracker_core::protocol::types::{AnnounceRequest, ResponsePeer, TorrentScrapeStatistics};
use tracker_core::swarm::map::TorrentMap;
use tracker_core::swarm::peers::{Peer, PeerMap};
use tracker_core::swarm::selection::select_peers;
use tracker_core::swarm::torrent::TorrentData;
use tracker_core::swarm::worker::{
    announce_with_offset, calc_max_num_peers_to_take, handle_announce_request,
    handle_connected_request, handle_scrape_request, TorrentMaps,
};

fn info_hash(last: u8) -> InfoHash {
    let mut bytes = [0u8; 20];
    bytes[19] = last;
    InfoHash(bytes)
}

fn peer_id(n: u8) -> PeerId {
    PeerId([n; 20])
}

fn ip(n: u8) -> Ipv4Addr {
    Ipv4Addr::new(10, 0, 0, n)
}

fn announce(peer: u8, left: u64, event: AnnounceEvent) -> AnnounceRequest {
    AnnounceRequest {
        connection_id: ConnectionId(1),
        transaction_id: TransactionId(100 + peer as u32),
        info_hash: info_hash(1),
        peer_id: peer_id(peer),
        bytes_downloaded: NumberOfBytes(0),
        bytes_left: NumberOfBytes(left),
        bytes_uploaded: NumberOfBytes(0),
        event,
        ip_address: None,
        key: PeerKey(0),
        peers_wanted: -1,
        port: Port(6000 + peer as u16),
    }
}

fn addr(peer: u8) -> ResponsePeer<Ipv4Addr> {
    ResponsePeer { ip_address: ip(peer), port: Port(6000 + peer as u16) }
}

fn scrape(torrents: &mut TorrentMap<Ipv4Addr>, hash: InfoHash) -> TorrentScrapeStatistics {
    let mut info_hashes = BTreeMap::new();
    info_hashes.insert(0usize, hash);
    let response = handle_scrape_request(torrents, PendingScrapeRequest { slab_key: 7, info_hashes });
    assert_eq!(response.slab_key, 7);
    assert_eq!(response.torrent_stats.len(), 1);
    response.torrent_stats[&0]
}

fn stats(seeders: u32, leechers: u32) -> TorrentScrapeStatistics {
    TorrentScrapeStatistics {
        seeders: NumberOfPeers(seeders),
        completed: NumberOfDownloads(0),
        leechers: NumberOfPeers(leechers),
    }
}

#[test]
fn two_peers_announce_and_are_scraped() {
    let config = Config::default();
    let mut torrents: TorrentMap<Ipv4Addr> = TorrentMap::new();

    let first = announce_with_offset(
        &config,
        &mut torrents,
        announce(1, 100, AnnounceEvent::Started),
        ip(1),
        ValidUntil(1200),
        0,
    );
    assert_eq!(first.transaction_id, TransactionId(101));
    assert_eq!(first.announce_interval, AnnounceInterval(900));
    assert_eq!(first.leechers, NumberOfPeers(1));
    assert_eq!(first.seeders, NumberOfPeers(0));
    assert!(first.peers.is_empty());

    let second = announce_with_offset(
        &config,
        &mut torrents,
        announce(2, 0, AnnounceEvent::Started),
        ip(2),
        ValidUntil(1200),
        0,
    );
    assert_eq!(second.leechers, NumberOfPeers(1));
    assert_eq!(second.seeders, NumberOfPeers(1));
    assert_eq!(second.peers, vec![addr(1)]);

    let torrent = &torrents.entries[0];
    assert_eq!(torrent.info_hash, info_hash(1));
    assert_eq!(torrent.data.num_leechers, 1);
    assert_eq!(torrent.data.num_seeders, 1);
    assert_eq!(torrent.data.peers.len(), 2);

    assert_eq!(torrents.get(&info_hash(1)).unwrap().num_seeders, 1);
    assert!(torrents.get(&info_hash(2)).is_none());
    assert!(torrents.contains_key(&info_hash(1)));
    assert_eq!(torrents.find(&info_hash(1)), Some(0));
    assert_eq!(torrents.find(&info_hash(2)), None);

    assert_eq!(scrape(&mut torrents, info_hash(1)), stats(1, 1));
    assert_eq!(scrape(&mut torrents, info_hash(2)), stats(0, 0));
    assert_eq!(torrents.statistics(&info_hash(1)), stats(1, 1));
}

#[test]
fn stopped_peer_is_removed() {
    let config = Config::default();
    let mut torrents: TorrentMap<Ipv4Addr> = TorrentMap::new();
    announce_with_offset(&config, &mut torrents, announce(1, 100, AnnounceEvent::Started), ip(1), ValidUntil(1200), 0);
    announce_with_offset(&config, &mut torrents, announce(2, 0, AnnounceEvent::Started), ip(2), ValidUntil(1200), 0);
    assert_eq!(torrents.entries[0].data.num_leechers, 1);

    let response = announce_with_offset(
        &config,
        &mut torrents,
        announce(1, 100, AnnounceEvent::Stopped),
        ip(1),
        ValidUntil(1300),
        0,
    );
    assert_eq!(response.leechers, NumberOfPeers(0));
    assert_eq!(response.seeders, NumberOfPeers(1));
    assert_eq!(response.peers, vec![addr(2)]);
    let data = &torrents.entries[0].data;
    assert_eq!(data.num_leechers, 0);
    assert_eq!(data.num_seeders, 1);
    assert_eq!(data.peers.len(), 1);
    assert!(!data.peers.contains_key(&peer_id(1)));
    assert!(data.peers.contains_key(&peer_id(2)));
    assert!(data.peers.get(&peer_id(1)).is_none());
}

#[test]
fn stopped_announce_of_unknown_peer_stores_nothing() {
    let config = Config::default();
    let mut torrents: TorrentMap<Ipv4Addr> = TorrentMap::new();
    let response = announce_with_offset(
        &config,
        &mut torrents,
        announce(1, 100, AnnounceEvent::Stopped),
        ip(1),
        ValidUntil(1200),
        0,
    );
    assert_eq!(response.leechers, NumberOfPeers(0));
    assert_eq!(response.seeders, NumberOfPeers(0));
    assert!(response.peers.is_empty());
    assert_eq!(torrents.len(), 1);
    assert!(torrents.entries[0].data.peers.is_empty());
    // The torrent without peers leaves with the next cleaning pass.
    torrents.clean(&AccessList::new(), AccessListMode::Off, 0);
    assert_eq!(torrents.len(), 0);
}

#[test]
fn status_change_moves_between_counters() {
    let mut torrent: TorrentData<Ipv4Addr> = TorrentData::default();
    let peer = |status, valid_until| Peer { ip_address: ip(1), port: Port(1), status, valid_until: ValidUntil(valid_until) };
    torrent.update_peer(peer_id(1), peer(PeerStatus::Leeching, 10));
    assert_eq!((torrent.num_seeders, torrent.num_leechers), (0, 1));
    torrent.update_peer(peer_id(1), peer(PeerStatus::Seeding, 20));
    assert_eq!((torrent.num_seeders, torrent.num_leechers), (1, 0));
    assert_eq!(torrent.peers.len(), 1);
    assert_eq!(torrent.peers.get(&peer_id(1)).unwrap().status, PeerStatus::Seeding);
    assert_eq!(torrent.peers.get(&peer_id(1)).unwrap().valid_until, ValidUntil(20));
    torrent.update_peer(peer_id(1), peer(PeerStatus::Seeding, 30));
    assert_eq!((torrent.num_seeders, torrent.num_leechers), (1, 0));
    torrent.update_peer(peer_id(1), peer(PeerStatus::Stopped, 40));
    assert_eq!((torrent.num_seeders, torrent.num_leechers), (0, 0));
    assert!(torrent.peers.is_empty());
}

#[test]
fn deadline_never_moves_backward() {
    let mut torrent: TorrentData<Ipv4Addr> = TorrentData::default();
    let peer = |valid_until| Peer {
        ip_address: ip(1),
        port: Port(1),
        status: PeerStatus::Leeching,
        valid_until: ValidUntil(valid_until),
    };
    torrent.update_peer(peer_id(1), peer(50));
    torrent.update_peer(peer_id(1), peer(40));
    assert_eq!(torrent.peers.get(&peer_id(1)).unwrap().valid_until, ValidUntil(50));
    torrent.update_peer(peer_id(1), peer(60));
    assert_eq!(torrent.peers.get(&peer_id(1)).unwrap().valid_until, ValidUntil(60));
}

const L: PeerStatus = PeerStatus::Leeching;
const S: PeerStatus = PeerStatus::Seeding;

fn swarm(statuses: &[PeerStatus]) -> PeerMap<Ipv4Addr> {
    let mut torrent: TorrentData<Ipv4Addr> = TorrentData::default();
    for (i, status) in statuses.iter().enumerate() {
        let n = i as u8 + 1;
        torrent.update_peer(
            peer_id(n),
            Peer { ip_address: ip(n), port: Port(6000 + n as u16), status: *status, valid_until: ValidUntil(100) },
        );
    }
    torrent.peers
}

#[test]
fn selection_walks_from_offset_and_wraps_once() {
    let peers = swarm(&[L, L, L, L, L]);
    // From position 3 on, without the requester (peer 2).
    assert_eq!(select_peers(&peers, &peer_id(2), 3, 10, false), vec![addr(4), addr(5), addr(1), addr(3)]);
    // The offset is taken modulo the number of peers.
    assert_eq!(select_peers(&peers, &peer_id(2), 8, 10, false), vec![addr(4), addr(5), addr(1), addr(3)]);
    assert_eq!(select_peers(&peers, &peer_id(2), 0, 2, false), vec![addr(1), addr(3)]);
    assert_eq!(select_peers(&peers, &peer_id(2), 4, 2, false), vec![addr(5), addr(1)]);
    assert_eq!(select_peers(&peers, &peer_id(2), 4, 0, false), vec![]);
    // A requester that is not in the map takes nothing away.
    assert_eq!(select_peers(&peers, &peer_id(9), 1, 10, false).len(), 5);
}

#[test]
fn selection_for_a_seeder_prefers_leechers() {
    let peers = swarm(&[S, L, S, L, S]);
    // Leechers first, from the offset on; then the others, from the offset on.
    assert_eq!(
        select_peers(&peers, &peer_id(1), 2, 10, true),
        vec![addr(4), addr(2), addr(3), addr(5)]
    );
    assert_eq!(select_peers(&peers, &peer_id(1), 2, 3, true), vec![addr(4), addr(2), addr(3)]);
    assert_eq!(select_peers(&peers, &peer_id(1), 2, 1, true), vec![addr(4)]);
    // Without the preference the order of insertion decides alone.
    assert_eq!(select_peers(&peers, &peer_id(1), 2, 3, false), vec![addr(3), addr(4), addr(5)]);
}

#[test]
fn selection_from_empty_map_is_empty() {
    let peers: PeerMap<Ipv4Addr> = PeerMap::new();
    assert!(select_peers(&peers, &peer_id(1), 5, 10, true).is_empty());
    assert!(select_peers(&peers, &peer_id(1), 0, 10, false).is_empty());
}

#[test]
fn number_of_peers_to_take() {
    let config = Config::default();
    assert_eq!(calc_max_num_peers_to_take(&config, -1), 255);
    assert_eq!(calc_max_num_peers_to_take(&config, 0), 255);
    assert_eq!(calc_max_num_peers_to_take(&config, 1), 1);
    assert_eq!(calc_max_num_peers_to_take(&config, 255), 255);
    assert_eq!(calc_max_num_peers_to_take(&config, 256), 255);
    assert_eq!(calc_max_num_peers_to_take(&config, i32::MAX), 255);
    assert_eq!(calc_max_num_peers_to_take(&config, i32::MIN), 255);
}

#[test]
fn response_with_drawn_offset_never_lists_the_requester() {
    let config = Config::default();
    let mut rng = SmallRng::seed_from_u64(7);
    let mut torrents: TorrentMap<Ipv4Addr> = TorrentMap::new();
    for n in 1..=20u8 {
        let left = if n % 3 == 0 { 0 } else { 10 };
        let mut request = announce(n, left, AnnounceEvent::Started);
        request.peers_wanted = 5;
        let response = handle_announce_request(&config, &mut rng, &mut torrents, request, ip(n), ValidUntil(100));
        assert!(response.peers.len() <= 5);
        assert_eq!(response.peers.len(), (n as usize - 1).min(5));
        assert!(!response.peers.contains(&addr(n)));
        for peer in &response.peers {
            assert_eq!(peer.port.0 - 6000, peer.ip_address.octets[3] as u16);
            assert!(peer.ip_address.octets[3] < n);
        }
        assert_eq!(response.seeders.0 + response.leechers.0, n as u32);
        assert_eq!(response.seeders.0, n as u32 / 3);
    }
    // Announcing again changes neither the counters nor the order.
    for round in 0..50u8 {
        let n = round % 20 + 1;
        let left = if n % 3 == 0 { 0 } else { 10 };
        let response = handle_announce_request(
            &config,
            &mut rng,
            &mut torrents,
            announce(n, left, AnnounceEvent::NoEvent),
            ip(n),
            ValidUntil(200),
        );
        assert_eq!(response.peers.len(), 19);
        assert!(!response.peers.contains(&addr(n)));
        assert_eq!((response.seeders, response.leechers), (NumberOfPeers(6), NumberOfPeers(14)));
    }
    assert_eq!(torrents.entries[0].data.peers.len(), 20);
}

#[test]
fn cleaning_drops_stale_peers_and_empty_torrents() {
    let config = Config::default();
    let mut maps = TorrentMaps::default();
    let list = AccessList::new();
    let mut first = announce(1, 10, AnnounceEvent::Started);
    first.info_hash = info_hash(1);
    let mut second = announce(2, 0, AnnounceEvent::Started);
    second.info_hash = info_hash(1);
    let mut third = announce(3, 0, AnnounceEvent::Started);
    third.info_hash = info_hash(2);
    announce_with_offset(&config, &mut maps.ipv4, first, ip(1), ValidUntil(100), 0);
    announce_with_offset(&config, &mut maps.ipv4, second, ip(2), ValidUntil(200), 0);
    announce_with_offset(&config, &mut maps.ipv4, third, ip(3), ValidUntil(100), 0);
    announce_with_offset(&config, &mut maps.ipv6, third, Ipv6Addr::new(1, 0, 0, 0, 0, 0, 0, 1), ValidUntil(300), 0);
    assert_eq!(maps.peers_per_torrent(), vec![2, 1, 1]);

    // A peer is kept as long as its deadline lies ahead.
    maps.clean(&config, &list, 99);
    assert_eq!(maps.peers_per_torrent(), vec![2, 1, 1]);

    maps.clean(&config, &list, 100);
    assert_eq!(maps.ipv4.len(), 1);
    assert_eq!(maps.ipv4.entries[0].info_hash, info_hash(1));
    assert_eq!(maps.ipv4.entries[0].data.num_leechers, 0);
    assert_eq!(maps.ipv4.entries[0].data.num_seeders, 1);
    assert!(maps.ipv4.entries[0].data.peers.contains_key(&peer_id(2)));
    assert!(!maps.ipv4.contains_key(&info_hash(2)));
    assert_eq!(maps.ipv6.len(), 1);
    assert_eq!(maps.peers_per_torrent(), vec![1, 1]);

    maps.clean(&config, &list, 300);
    assert_eq!(maps.ipv4.len(), 0);
    assert_eq!(maps.ipv6.len(), 0);
    assert!(maps.peers_per_torrent().is_empty());
}

#[test]
fn cleaning_drops_torrents_that_are_no_longer_allowed() {
    let mut config = Config::default();
    let mut maps = TorrentMaps::default();
    let mut list = AccessList::new();
    list.insert(info_hash(1));
    let mut other = announce(2, 0, AnnounceEvent::Started);
    other.info_hash = info_hash(2);
    announce_with_offset(&config, &mut maps.ipv4, announce(1, 10, AnnounceEvent::Started), ip(1), ValidUntil(100), 0);
    announce_with_offset(&config, &mut maps.ipv4, other, ip(2), ValidUntil(100), 0);

    config.access_list.mode = AccessListMode::Off;
    maps.clean(&config, &list, 0);
    assert_eq!(maps.ipv4.len(), 2);

    config.access_list.mode = AccessListMode::Allow;
    maps.clean(&config, &list, 0);
    assert_eq!(maps.ipv4.len(), 1);
    assert!(maps.ipv4.contains_key(&info_hash(1)));

    config.access_list.mode = AccessListMode::Deny;
    maps.clean(&config, &list, 0);
    assert_eq!(maps.ipv4.len(), 0);
}

#[test]
fn clean_torrent_and_peers_says_whether_to_keep() {
    let mut torrent: TorrentData<Ipv4Addr> = TorrentData::default();
    torrent.update_peer(
        peer_id(1),
        Peer { ip_address: ip(1), port: Port(1), status: PeerStatus::Seeding, valid_until: ValidUntil(10) },
    );
    assert!(TorrentMaps::clean_torrent_and_peers(9, &mut torrent));
    assert_eq!(torrent.num_seeders, 1);
    assert!(!TorrentMaps::clean_torrent_and_peers(10, &mut torrent));
    assert_eq!(torrent.num_seeders, 0);
    assert!(torrent.peers.is_empty());
}

#[test]
fn swarm_worker_serves_each_address_family_from_its_own_map() {
    let config = Config::default();
    let list = AccessList::new();
    let mut rng = SmallRng::seed_from_u64(1);
    let mut maps = TorrentMaps::default();
    let v4 = CanonicalSocketAddr::new(IpAddr::V4(ip(1)), 1000);
    let v6 = CanonicalSocketAddr::new(IpAddr::V6(Ipv6Addr::new(0x2001, 0, 0, 0, 0, 0, 0, 1)), 1000);

    let response = handle_connected_request(
        &config,
        &list,
        &mut rng,
        &mut maps,
        ConnectedRequest::Announce(announce(1, 10, AnnounceEvent::Started)),
        v4,
        50,
    );
    match response {
        ConnectedResponse::AnnounceIpv4(r) => {
            assert_eq!((r.seeders, r.leechers), (NumberOfPeers(0), NumberOfPeers(1)));
            assert_eq!(r.transaction_id, TransactionId(101));
        }
        other => panic!("unexpected {:?}", other),
    }
    let response = handle_connected_request(
        &config,
        &list,
        &mut rng,
        &mut maps,
        ConnectedRequest::Announce(announce(2, 0, AnnounceEvent::Started)),
        v6,
        50,
    );
    match response {
        ConnectedResponse::AnnounceIpv6(r) => {
            assert_eq!((r.seeders, r.leechers), (NumberOfPeers(1), NumberOfPeers(0)));
            assert!(r.peers.is_empty());
        }
        other => panic!("unexpected {:?}", other),
    }
    assert_eq!(maps.ipv4.len(), 1);
    assert_eq!(maps.ipv6.len(), 1);
    // The deadline of the peer is the time of the announce and the age of a peer.
    assert_eq!(
        maps.ipv4.entries[0].data.peers.get(&peer_id(1)).unwrap().valid_until,
        ValidUntil(50 + config.cleaning.max_peer_age)
    );

    let mut info_hashes = BTreeMap::new();
    info_hashes.insert(3usize, info_hash(1));
    info_hashes.insert(5usize, info_hash(9));
    let response = handle_connected_request(
        &config,
        &list,
        &mut rng,
        &mut maps,
        ConnectedRequest::Scrape(PendingScrapeRequest { slab_key: 4, info_hashes }),
        v6,
        50,
    );
    match response {
        ConnectedResponse::Scrape(r) => {
            assert_eq!(r.slab_key, 4);
            assert_eq!(r.torrent_stats.len(), 2);
            assert_eq!(r.torrent_stats[&3], stats(1, 0));
            assert_eq!(r.torrent_stats[&5], stats(0, 0));
        }
        other => panic!("unexpected {:?}", other),
    }
}

#[test]
fn announce_of_disallowed_torrent_gets_an_error() {
    let mut config = Config::default();
    config.access_list.mode = AccessListMode::Deny;
    let mut list = AccessList::new();
    list.insert(info_hash(1));
    let mut rng = SmallRng::seed_from_u64(1);
    let mut maps = TorrentMaps::default();
    let src = CanonicalSocketAddr::new(IpAddr::V4(ip(1)), 1000);
    let response = handle_connected_request(
        &config,
        &list,
        &mut rng,
        &mut maps,
        ConnectedRequest::Announce(announce(1, 10, AnnounceEvent::Started)),
        src,
        50,
    );
    match response {
        ConnectedResponse::Error(e) => {
            assert_eq!(e.transaction_id, TransactionId(101));
            assert_eq!(e.message, "Info hash not allowed");
        }
        other => panic!("unexpected {:?}", other),
    }
    assert_eq!(maps.ipv4.len(), 0);
}

#[test]
fn valid_until_saturates() {
    assert_eq!(ValidUntil::new(5, 10), ValidUntil(15));
    assert_eq!(ValidUntil::new(u64::MAX - 1, 10), ValidUntil(u64::MAX));
    assert_eq!(ValidUntil::new(u64::MAX, 0), ValidUntil(u64::MAX));
    assert!(ValidUntil(15).live_at(14));
    assert!(!ValidUntil(15).live_at(15));
}

#[test]
fn torrents_keep_their_order() {
    let config = Config::default();
    let list = AccessList::new();
    let mut torrents: TorrentMap<Ipv4Addr> = TorrentMap::new();
    let hashes = |torrents: &TorrentMap<Ipv4Addr>| -> Vec<u8> {
        torrents.entries.iter().map(|e| e.info_hash.0[19]).collect()
    };
    // Torrents 5, 3, 9, 1, 7 in this order; those with an odd position get a short deadline.
    for (position, last) in [5u8, 3, 9, 1, 7].into_iter().enumerate() {
        let mut request = announce(last, 10, AnnounceEvent::Started);
        request.info_hash = info_hash(last);
        let deadline = if position % 2 == 1 { 10 } else { 20 };
        announce_with_offset(&config, &mut torrents, request, ip(last), ValidUntil(deadline), 0);
    }
    assert_eq!(hashes(&torrents), vec![5, 3, 9, 1, 7]);
    assert_eq!(torrents.num_peers(), 5);
    // An announce for a known torrent moves nothing.
    let mut again = announce(50, 0, AnnounceEvent::Started);
    again.info_hash = info_hash(9);
    announce_with_offset(&config, &mut torrents, again, ip(50), ValidUntil(20), 0);
    assert_eq!(hashes(&torrents), vec![5, 3, 9, 1, 7]);
    assert_eq!(torrents.num_peers(), 6);
    torrents.clean(&list, AccessListMode::Off, 10);
    assert_eq!(hashes(&torrents), vec![5, 9, 7]);
    assert_eq!(torrents.num_peers(), 4);
    let mut late = announce(60, 0, AnnounceEvent::Started);
    late.info_hash = info_hash(3);
    announce_with_offset(&config, &mut torrents, late, ip(60), ValidUntil(30), 0);
    assert_eq!(hashes(&torrents), vec![5, 9, 7, 3]);
    torrents.clean(&list, AccessListMode::Off, 20);
    assert_eq!(hashes(&torrents), vec![3]);
    assert_eq!(torrents.num_peers(), 1);
    torrents.clean(&list, AccessListMode::Off, 30);
    assert_eq!(hashes(&torrents), Vec::<u8>::new());
    assert_eq!(torrents.num_peers(), 0);
}
