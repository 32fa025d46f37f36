use rand::rngs::SmallRng;
use rand::SeedableRng;

use tracker_core::common::{
    AnnounceEvent, ConnectionId, InfoHash, NumberOfBytes, NumberOfDownloads, NumberOfPeers,
    PeerId, PeerKey, Port, SwarmWorkerIndex, TransactionId, ValidUntil,
};
use tracker_core::config::Config;
use tracker_core::connection::ConnectionValidator;
use tracker_core::messages::{ConnectedRequest, ConnectedResponse};
use tracker_core::net::{CanonicalSocketAddr, IpAddr, Ipv4Addr, Ipv6Addr};
use tracker_core::pending_scrape::{PendingScrapeResponse, PendingScrapeResponseSlab};
use tracker_core::protocol::request::{ParseFailure, RequestParseError};
use tracker_core::protocol::types::{
    AnnounceRequest, AnnounceResponse, ConnectRequest, ErrorResponse, Request, Response,
    ScrapeRequest, TorrentScrapeStatistics,
};
use tracker_core::socket::{handle_datagram, handle_request, handle_response, InboundAction};
use tracker_core::swarm::worker::{handle_connected_request, TorrentMaps};
use tracker_core::access_list::AccessList;

fn hash(first: u8) -> InfoHash {
    let mut bytes = [0u8; 20];
    bytes[0] = first;
    InfoHash(bytes)
}

fn client(n: u8) -> CanonicalSocketAddr {
    CanonicalSocketAddr::new(IpAddr::V4(Ipv4Addr::new(192, 0, 2, n)), 40000)
}

fn announce(connection_id: ConnectionId, info_hash: InfoHash) -> AnnounceRequest {
    AnnounceRequest {
        connection_id,
        transaction_id: TransactionId(11),
        info_hash,
        peer_id: PeerId([1; 20]),
        bytes_downloaded: NumberOfBytes(0),
        bytes_left: NumberOfBytes(100),
        bytes_uploaded: NumberOfBytes(0),
        event: AnnounceEvent::Started,
        ip_address: None,
        key: PeerKey(0),
        peers_wanted: 10,
        port: Port(6881),
    }
}

fn bytes_of(request: &Request) -> Vec<u8> {
    let mut buf = Vec::new();
    request.write(&mut buf).unwrap();
    buf
}

struct Worker {
    config: Config,
    validator: ConnectionValidator,
    rng: SmallRng,
    pending: PendingScrapeResponseSlab,
}

fn worker(swarm_workers: usize) -> Worker {
    let mut config = Config::default();
    config.swarm_workers = swarm_workers;
    Worker {
        config,
        validator: ConnectionValidator::new(),
        rng: SmallRng::seed_from_u64(3),
        pending: PendingScrapeResponseSlab::default(),
    }
}

fn receive(w: &mut Worker, bytes: &[u8], src: CanonicalSocketAddr, now: u64) -> InboundAction {
    handle_datagram(&w.config, &mut w.validator, &mut w.rng, &mut w.pending, bytes, src.ip(), now)
}

fn connect(w: &mut Worker, src: CanonicalSocketAddr, now: u64) -> ConnectionId {
    let request = Request::Connect(ConnectRequest { transaction_id: TransactionId(5) });
    match receive(w, &bytes_of(&request), src, now) {
        InboundAction::Reply(Response::Connect(r)) => {
            assert_eq!(r.transaction_id, TransactionId(5));
            r.connection_id
        }
        other => panic!("unexpected {:?}", other),
    }
}

#[test]
fn connect_is_answered_with_a_connection_id_for_the_source() {
    let mut w = worker(4);
    let id = connect(&mut w, client(1), 0);
    assert_eq!(w.validator.len(), 1);
    assert!(w.validator.verify(id, client(1).ip(), 0));
    assert!(w.validator.verify(id, client(1).ip(), 120));
    assert!(!w.validator.verify(id, client(1).ip(), 121));
    assert!(!w.validator.verify(id, client(2).ip(), 0));
}

#[test]
fn announce_with_valid_connection_id_goes_to_the_shard_of_its_hash() {
    let mut w = worker(4);
    let id = connect(&mut w, client(1), 0);
    for first in [0u8, 1, 2, 3, 4, 7, 0x40, 0xff] {
        let request = announce(id, hash(first));
        match receive(&mut w, &bytes_of(&Request::Announce(request)), client(1), 10) {
            InboundAction::ForwardAnnounce(index, forwarded) => {
                assert_eq!(index, SwarmWorkerIndex(first as usize % 4));
                assert_eq!(forwarded, request);
            }
            other => panic!("unexpected {:?}", other),
        }
    }
    assert_eq!(SwarmWorkerIndex::from_info_hash(&w.config, hash(0xc1)), SwarmWorkerIndex(1));
}

#[test]
fn spoofed_announce_gets_no_answer() {
    let mut w = worker(4);
    let request = Request::Announce(announce(ConnectionId(0), hash(1)));
    assert!(matches!(receive(&mut w, &bytes_of(&request), client(1), 0), InboundAction::Drop));
    // Another client connected, but this source did not.
    let id = connect(&mut w, client(2), 0);
    let request = Request::Announce(announce(id, hash(1)));
    assert!(matches!(receive(&mut w, &bytes_of(&request), client(1), 0), InboundAction::Drop));
    let scrape = Request::Scrape(ScrapeRequest {
        connection_id: id,
        transaction_id: TransactionId(1),
        info_hashes: vec![hash(1)],
    });
    assert!(matches!(receive(&mut w, &bytes_of(&scrape), client(1), 0), InboundAction::Drop));
    assert_eq!(w.pending.len(), 0);
}

#[test]
fn expired_connection_id_gets_no_answer() {
    let mut w = worker(4);
    let id = connect(&mut w, client(1), 0);
    let request = Request::Announce(announce(id, hash(1)));
    let at_the_end = w.config.cleaning.max_connection_age;
    assert!(matches!(
        receive(&mut w, &bytes_of(&request), client(1), at_the_end),
        InboundAction::ForwardAnnounce(_, _)
    ));
    assert!(matches!(
        receive(&mut w, &bytes_of(&request), client(1), at_the_end + 1),
        InboundAction::Drop
    ));
    // Cleaning forgets the id, and changes nothing of the answer.
    w.validator.clean(at_the_end);
    assert_eq!(w.validator.len(), 1);
    w.validator.clean(at_the_end + 1);
    assert_eq!(w.validator.len(), 0);
    assert!(matches!(
        receive(&mut w, &bytes_of(&request), client(1), at_the_end + 1),
        InboundAction::Drop
    ));
}

#[test]
fn connection_id_is_bound_to_the_address_not_the_port() {
    let mut w = worker(1);
    let id = connect(&mut w, client(1), 0);
    let other_port = CanonicalSocketAddr::new(IpAddr::V4(Ipv4Addr::new(192, 0, 2, 1)), 1);
    let request = Request::Announce(announce(id, hash(1)));
    assert!(matches!(
        receive(&mut w, &bytes_of(&request), other_port, 1),
        InboundAction::ForwardAnnounce(_, _)
    ));
    // The same host, seen as an IPv4-mapped IPv6 address.
    let mapped = CanonicalSocketAddr::new(
        IpAddr::V6(Ipv6Addr::new(0, 0, 0, 0, 0, 0xffff, 0xc000, 0x0201)),
        40000,
    );
    assert_eq!(mapped.ip(), IpAddr::V4(Ipv4Addr::new(192, 0, 2, 1)));
    assert!(matches!(
        receive(&mut w, &bytes_of(&request), mapped, 1),
        InboundAction::ForwardAnnounce(_, _)
    ));
    // The datagram handler maps the address down by itself.
    let raw = IpAddr::V6(Ipv6Addr::new(0, 0, 0, 0, 0, 0xffff, 0xc000, 0x0201));
    assert!(matches!(
        handle_datagram(&w.config, &mut w.validator, &mut w.rng, &mut w.pending, &bytes_of(&request), raw, 1),
        InboundAction::ForwardAnnounce(_, _)
    ));
    let connect = Request::Connect(ConnectRequest { transaction_id: TransactionId(6) });
    let id = match handle_datagram(&w.config, &mut w.validator, &mut w.rng, &mut w.pending, &bytes_of(&connect), raw, 1) {
        InboundAction::Reply(Response::Connect(r)) => r.connection_id,
        other => panic!("unexpected {:?}", other),
    };
    assert!(w.validator.verify(id, IpAddr::V4(Ipv4Addr::new(192, 0, 2, 1)), 1));
    assert!(!w.validator.verify(id, raw, 1));
}

#[test]
fn validator_insert_replaces_the_binding_of_an_id() {
    let mut validator = ConnectionValidator::new();
    let a = IpAddr::V4(Ipv4Addr::new(1, 1, 1, 1));
    let b = IpAddr::V4(Ipv4Addr::new(2, 2, 2, 2));
    validator.insert(ConnectionId(9), a, ValidUntil(10));
    assert!(validator.verify(ConnectionId(9), a, 10));
    assert!(!validator.verify(ConnectionId(9), b, 10));
    assert!(!validator.verify(ConnectionId(8), a, 10));
    validator.insert(ConnectionId(9), b, ValidUntil(20));
    assert_eq!(validator.len(), 1);
    assert!(!validator.verify(ConnectionId(9), a, 10));
    assert!(validator.verify(ConnectionId(9), b, 20));
    assert!(!validator.verify(ConnectionId(9), b, 21));
}

#[test]
fn issued_ids_differ_and_each_is_bound_to_its_address() {
    let mut validator = ConnectionValidator::new();
    let mut rng = SmallRng::seed_from_u64(11);
    let a = IpAddr::V4(Ipv4Addr::new(1, 1, 1, 1));
    let b = IpAddr::V6(Ipv6Addr::new(1, 1, 1, 1, 1, 1, 1, 1));
    let (id_a, until_a) = validator.issue(&mut rng, a, 100, 120);
    let (id_b, until_b) = validator.issue(&mut rng, b, 100, u64::MAX);
    assert_eq!(until_a, ValidUntil(220));
    assert_eq!(until_b, ValidUntil(u64::MAX));
    assert_ne!(id_a, id_b);
    assert!(validator.verify(id_a, a, 100));
    assert!(!validator.verify(id_a, b, 100));
    assert!(validator.verify(id_b, b, u64::MAX));
    assert!(!validator.verify(id_b, a, 100));
}

#[test]
fn datagram_without_request_is_dropped_or_answered_with_an_error() {
    let mut w = worker(4);
    assert!(matches!(receive(&mut w, &[1, 2, 3], client(1), 0), InboundAction::Drop));
    assert!(matches!(receive(&mut w, &[0u8; 16], client(1), 0), InboundAction::Drop));
    let mut bytes = bytes_of(&Request::Announce(announce(ConnectionId(1), hash(1))));
    bytes.truncate(50);
    match receive(&mut w, &bytes, client(1), 0) {
        InboundAction::Reply(Response::Error(e)) => {
            assert_eq!(e.transaction_id, TransactionId(11));
            assert_eq!(e.message, "Parse error");
        }
        other => panic!("unexpected {:?}", other),
    }
    let sendable = Err(RequestParseError::Sendable {
        connection_id: ConnectionId(1),
        transaction_id: TransactionId(77),
        reason: ParseFailure::InvalidAction,
    });
    match handle_request(&w.config, &mut w.validator, &mut w.rng, &mut w.pending, sendable, client(1), 0) {
        InboundAction::Reply(Response::Error(e)) => assert_eq!(e.transaction_id, TransactionId(77)),
        other => panic!("unexpected {:?}", other),
    }
    assert_eq!(w.validator.len(), 0);
    assert_eq!(w.pending.len(), 0);
}

#[test]
fn scrape_is_split_by_shard_and_assembled_in_request_order() {
    let mut w = worker(4);
    let id = connect(&mut w, client(1), 0);
    // Positions 0..6 with the shards 3, 0, 1, 0, 3, 1.
    let hashes = vec![hash(3), hash(0), hash(1), hash(4), hash(7), hash(5)];
    let request = Request::Scrape(ScrapeRequest {
        connection_id: id,
        transaction_id: TransactionId(42),
        info_hashes: hashes.clone(),
    });
    let parts = match receive(&mut w, &bytes_of(&request), client(1), 5) {
        InboundAction::ForwardScrape(parts) => parts,
        other => panic!("unexpected {:?}", other),
    };
    assert_eq!(w.pending.len(), 1);
    assert_eq!(parts.len(), 3);
    let shards: Vec<usize> = parts.iter().map(|p| p.0 .0).collect();
    assert_eq!(shards, vec![0, 1, 3]);
    let positions: Vec<Vec<usize>> =
        parts.iter().map(|p| p.1.info_hashes.keys().copied().collect()).collect();
    assert_eq!(positions, vec![vec![1, 3], vec![2, 5], vec![0, 4]]);
    let key = parts[0].1.slab_key;
    for (shard, part) in &parts {
        assert_eq!(part.slab_key, key);
        for (position, info_hash) in &part.info_hashes {
            assert_eq!(*info_hash, hashes[*position]);
            assert_eq!(info_hash.0[0] as usize % 4, shard.0);
        }
    }

    // Each shard answers with the position as the number of seeders.
    let mut answers = Vec::new();
    for (_, part) in parts {
        let torrent_stats = part
            .info_hashes
            .keys()
            .map(|position| {
                (
                    *position,
                    TorrentScrapeStatistics {
                        seeders: NumberOfPeers(*position as u32),
                        completed: NumberOfDownloads(0),
                        leechers: NumberOfPeers(10 + *position as u32),
                    },
                )
            })
            .collect();
        answers.push(PendingScrapeResponse { slab_key: part.slab_key, torrent_stats });
    }
    // The answers come back in another order than the parts went out.
    let last = answers.remove(0);
    for answer in answers {
        assert_eq!(handle_response(&mut w.pending, ConnectedResponse::Scrape(answer)), None);
        assert_eq!(w.pending.len(), 1);
    }
    let complete = handle_response(&mut w.pending, ConnectedResponse::Scrape(last));
    assert_eq!(w.pending.len(), 0);
    match complete {
        Some(Response::Scrape(r)) => {
            assert_eq!(r.transaction_id, TransactionId(42));
            assert_eq!(r.torrent_stats.len(), 6);
            for (position, stats) in r.torrent_stats.iter().enumerate() {
                assert_eq!(stats.seeders, NumberOfPeers(position as u32));
                assert_eq!(stats.leechers, NumberOfPeers(10 + position as u32));
            }
        }
        other => panic!("unexpected {:?}", other),
    }
}

#[test]
fn scrape_over_four_shards_end_to_end() {
    let mut w = worker(4);
    let list = AccessList::new();
    let id = connect(&mut w, client(1), 0);
    let mut shards: Vec<TorrentMaps> = (0..4).map(|_| TorrentMaps::default()).collect();

    // A leecher announces the torrent of shard 2.
    let request = Request::Announce(announce(id, hash(2)));
    match receive(&mut w, &bytes_of(&request), client(1), 1) {
        InboundAction::ForwardAnnounce(index, forwarded) => {
            assert_eq!(index.0, 2);
            handle_connected_request(
                &w.config,
                &list,
                &mut w.rng,
                &mut shards[index.0],
                ConnectedRequest::Announce(forwarded),
                client(1),
                1,
            );
        }
        other => panic!("unexpected {:?}", other),
    }

    let request = Request::Scrape(ScrapeRequest {
        connection_id: id,
        transaction_id: TransactionId(8),
        info_hashes: vec![hash(0), hash(1), hash(2), hash(3)],
    });
    let parts = match receive(&mut w, &bytes_of(&request), client(1), 2) {
        InboundAction::ForwardScrape(parts) => parts,
        other => panic!("unexpected {:?}", other),
    };
    assert_eq!(parts.len(), 4);
    let mut out = None;
    for (index, part) in parts {
        assert_eq!(part.info_hashes.len(), 1);
        let answer = handle_connected_request(
            &w.config,
            &list,
            &mut w.rng,
            &mut shards[index.0],
            ConnectedRequest::Scrape(part),
            client(1),
            2,
        );
        assert!(out.is_none());
        out = handle_response(&mut w.pending, answer);
    }
    let zero = TorrentScrapeStatistics {
        seeders: NumberOfPeers(0),
        completed: NumberOfDownloads(0),
        leechers: NumberOfPeers(0),
    };
    let one = TorrentScrapeStatistics { leechers: NumberOfPeers(1), ..zero };
    match out {
        Some(Response::Scrape(r)) => assert_eq!(r.torrent_stats, vec![zero, zero, one, zero]),
        other => panic!("unexpected {:?}", other),
    }
}

#[test]
fn hashes_with_first_bytes_a_multiple_of_the_shards_share_a_shard() {
    let mut w = worker(4);
    let id = connect(&mut w, client(1), 0);
    let request = Request::Scrape(ScrapeRequest {
        connection_id: id,
        transaction_id: TransactionId(8),
        info_hashes: vec![hash(0x00), hash(0x40), hash(0x80), hash(0xc0)],
    });
    let parts = match receive(&mut w, &bytes_of(&request), client(1), 2) {
        InboundAction::ForwardScrape(parts) => parts,
        other => panic!("unexpected {:?}", other),
    };
    assert_eq!(parts.len(), 1);
    assert_eq!(parts[0].0, SwarmWorkerIndex(0));
    assert_eq!(parts[0].1.info_hashes.len(), 4);
    let mut shard = TorrentMaps::default();
    let answer = handle_connected_request(
        &w.config,
        &AccessList::new(),
        &mut w.rng,
        &mut shard,
        ConnectedRequest::Scrape(parts.into_iter().next().unwrap().1),
        client(1),
        2,
    );
    match handle_response(&mut w.pending, answer) {
        Some(Response::Scrape(r)) => assert_eq!(r.torrent_stats.len(), 4),
        other => panic!("unexpected {:?}", other),
    }
}

#[test]
fn announce_and_error_answers_go_out_as_they_are() {
    let mut pending = PendingScrapeResponseSlab::default();
    let announce: AnnounceResponse<Ipv4Addr> = AnnounceResponse {
        transaction_id: TransactionId(1),
        announce_interval: tracker_core::common::AnnounceInterval(2),
        leechers: NumberOfPeers(3),
        seeders: NumberOfPeers(4),
        peers: vec![],
    };
    assert_eq!(
        handle_response(&mut pending, ConnectedResponse::AnnounceIpv4(announce.clone())),
        Some(Response::AnnounceIpv4(announce.clone()))
    );
    assert_eq!(
        handle_response(&mut pending, announce.clone().into_connected_response()),
        Some(Response::AnnounceIpv4(announce))
    );
    let error = ErrorResponse { transaction_id: TransactionId(1), message: "no".to_string() };
    assert_eq!(
        handle_response(&mut pending, ConnectedResponse::Error(error.clone())),
        Some(Response::Error(error))
    );
    let announce: AnnounceResponse<Ipv6Addr> = AnnounceResponse {
        transaction_id: TransactionId(1),
        announce_interval: tracker_core::common::AnnounceInterval(2),
        leechers: NumberOfPeers(3),
        seeders: NumberOfPeers(4),
        peers: vec![],
    };
    assert_eq!(
        handle_response(&mut pending, announce.clone().into_connected_response()),
        Some(Response::AnnounceIpv6(announce))
    );
}
