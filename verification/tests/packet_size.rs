use tracker_core::common::{
    AnnounceInterval, NumberOfPeers, Port, TransactionId, BUFFER_SIZE, MAX_PACKET_SIZE,
};
use tracker_core::config::{Config, MAX_RESPONSE_PEERS_LIMIT};
use tracker_core::net::{Ipv4Addr, Ipv6Addr};
use tracker_core::protocol::request::PacketTooLarge;
use tracker_core::protocol::types::{AnnounceResponse, Response, ResponsePeer};

// Assumes that announce response with maximum amount of ipv6 peers will
// be the longest
#[test]
fn test_buffer_size() {
    let config = Config::default();

    let peers = ::std::iter::repeat(ResponsePeer {
        ip_address: Ipv6Addr::new(1, 1, 1, 1, 1, 1, 1, 1),
        port: Port(1),
    })
    .take(config.protocol.max_response_peers)
    .collect();

    let response = Response::AnnounceIpv6(AnnounceResponse {
        transaction_id: TransactionId(1),
        announce_interval: AnnounceInterval(1),
        seeders: NumberOfPeers(1),
        leechers: NumberOfPeers(1),
        peers,
    });

    let mut buf = Vec::new();

    response.write(&mut buf).unwrap();

    println!("Buffer len: {}", buf.len());

    assert!(buf.len() <= BUFFER_SIZE);
}

// Assumes that announce response with maximum amount of ipv6 peers will
// be the longest
#[test]
fn test_max_package_size() {
    let config = Config::default();

    let peers = ::std::iter::repeat(ResponsePeer {
        ip_address: Ipv6Addr::new(1, 1, 1, 1, 1, 1, 1, 1),
        port: Port(1),
    })
    .take(config.protocol.max_response_peers)
    .collect();

    let response = Response::AnnounceIpv6(AnnounceResponse {
        transaction_id: TransactionId(1),
        announce_interval: AnnounceInterval(1),
        seeders: NumberOfPeers(1),
        leechers: NumberOfPeers(1),
        peers,
    });

    let mut buf = Vec::new();

    response.write(&mut buf).unwrap();

    println!("Buffer len: {}", buf.len());

    assert!(buf.len() <= MAX_PACKET_SIZE);
}

fn ipv6_response(peers: usize) -> Response {
    Response::AnnounceIpv6(AnnounceResponse {
        transaction_id: TransactionId(9),
        announce_interval: AnnounceInterval(1800),
        leechers: NumberOfPeers(3),
        seeders: NumberOfPeers(4),
        peers: vec![
            ResponsePeer { ip_address: Ipv6Addr::new(0x2001, 0xdb8, 0, 0, 0, 0, 0, 1), port: Port(6881) };
            peers
        ],
    })
}

#[test]
fn announce_response_with_default_limit_has_exact_length() {
    let mut buf = Vec::new();
    ipv6_response(255).write(&mut buf).unwrap();
    assert_eq!(buf.len(), 20 + 18 * 255);
    assert_eq!(buf.len(), 4610);
}

#[test]
fn announce_response_with_most_ipv6_peers_just_fits() {
    assert_eq!(MAX_RESPONSE_PEERS_LIMIT, 454);
    let mut buf = Vec::new();
    assert_eq!(ipv6_response(454).write(&mut buf), Ok(()));
    assert_eq!(buf.len(), 8192);
}

#[test]
fn announce_response_over_the_limit_is_not_written() {
    let mut buf = vec![7u8, 7, 7];
    assert_eq!(ipv6_response(455).write(&mut buf), Err(PacketTooLarge));
    assert_eq!(buf, vec![7u8, 7, 7]);
}

#[test]
fn ipv4_announce_response_limit() {
    let response = |n: usize| {
        Response::AnnounceIpv4(AnnounceResponse {
            transaction_id: TransactionId(9),
            announce_interval: AnnounceInterval(1800),
            leechers: NumberOfPeers(3),
            seeders: NumberOfPeers(4),
            peers: vec![ResponsePeer { ip_address: Ipv4Addr::new(10, 0, 0, 1), port: Port(1) }; n],
        })
    };
    let mut buf = Vec::new();
    assert_eq!(response(1362).write(&mut buf), Ok(()));
    assert_eq!(buf.len(), 20 + 6 * 1362);
    let mut other = Vec::new();
    assert_eq!(response(1363).write(&mut other), Err(PacketTooLarge));
    assert!(other.is_empty());
}

#[test]
fn default_config_is_valid() {
    let config = Config::default();
    assert!(config.is_valid());
    assert_eq!(config.protocol.max_response_peers, 255);
    assert_eq!(config.cleaning.max_connection_age, 120);
    assert_eq!(config.swarm_workers, 1);
}

#[test]
fn config_without_swarm_workers_is_not_valid() {
    let mut config = Config::default();
    config.swarm_workers = 0;
    assert!(!config.is_valid());
    let mut config = Config::default();
    config.protocol.max_response_peers = 455;
    assert!(!config.is_valid());
    let mut config = Config::default();
    config.socket_workers = 0;
    assert!(!config.is_valid());
}
