use tracker_core::access_list::AccessList;
use tracker_core::bench::{create_requests, ConnectionKey};
use tracker_core::common::{bytes20_eq, ConnectionId, InfoHash, PeerId, SwarmWorkerIndex, TransactionId};
use tracker_core::config::{AccessListMode, Config};
use tracker_core::net::{convert_ipv4_mapped_ipv6, CanonicalSocketAddr, Ip, IpAddr, Ipv4Addr, Ipv6Addr};
use tracker_core::statistics::{State, Statistics};

fn hash(first: u8) -> InfoHash {
    let mut bytes = [0u8; 20];
    bytes[0] = first;
    InfoHash(bytes)
}

#[test]
fn identifiers_are_equal_when_their_bytes_are() {
    let mut a = [7u8; 20];
    let b = [7u8; 20];
    assert!(bytes20_eq(&a, &b));
    a[19] = 8;
    assert!(!bytes20_eq(&a, &b));
    assert!(InfoHash(b).same(&InfoHash(b)));
    assert!(!InfoHash(a).same(&InfoHash(b)));
    assert!(PeerId(a).same(&PeerId(a)));
    assert!(!PeerId(a).same(&PeerId(b)));
}

#[test]
fn shard_is_first_byte_modulo_workers() {
    let mut config = Config::default();
    for workers in 1..=16usize {
        config.swarm_workers = workers;
        for first in [0u8, 1, 15, 16, 17, 127, 128, 255] {
            assert_eq!(
                SwarmWorkerIndex::from_info_hash(&config, hash(first)),
                SwarmWorkerIndex(first as usize % workers)
            );
        }
    }
    config.swarm_workers = 1000;
    assert_eq!(SwarmWorkerIndex::from_info_hash(&config, hash(255)), SwarmWorkerIndex(255));
}

#[test]
fn ipv4_mapped_addresses_are_mapped_down() {
    let mapped = IpAddr::V6(Ipv6Addr::new(0, 0, 0, 0, 0, 0xffff, 0x7f00, 0x0001));
    assert_eq!(convert_ipv4_mapped_ipv6(mapped), IpAddr::V4(Ipv4Addr::new(127, 0, 0, 1)));
    let plain = IpAddr::V6(Ipv6Addr::new(0x2001, 0xdb8, 0, 0, 0, 0, 0, 1));
    assert_eq!(convert_ipv4_mapped_ipv6(plain), plain);
    // Neither an IPv4-compatible address nor one with other leading groups is mapped.
    let compatible = IpAddr::V6(Ipv6Addr::new(0, 0, 0, 0, 0, 0, 0x7f00, 0x0001));
    assert_eq!(convert_ipv4_mapped_ipv6(compatible), compatible);
    let other = IpAddr::V6(Ipv6Addr::new(1, 0, 0, 0, 0, 0xffff, 0x7f00, 0x0001));
    assert_eq!(convert_ipv4_mapped_ipv6(other), other);
    let half = IpAddr::V6(Ipv6Addr::new(0, 0, 0, 0, 0, 0xff00, 0x7f00, 0x0001));
    assert_eq!(convert_ipv4_mapped_ipv6(half), half);
    let v4 = IpAddr::V4(Ipv4Addr::new(1, 2, 3, 4));
    assert_eq!(convert_ipv4_mapped_ipv6(v4), v4);
    let back = Ipv4Addr::new(127, 0, 0, 1).to_ipv6_mapped();
    assert_eq!(IpAddr::V6(back), mapped);
    assert_eq!(back.octets(), [0, 0, 0, 0, 0, 0, 0, 0, 0, 0, 0xff, 0xff, 127, 0, 0, 1]);
    let addr = CanonicalSocketAddr::new(mapped, 99);
    assert_eq!(addr.ip(), IpAddr::V4(Ipv4Addr::new(127, 0, 0, 1)));
    assert_eq!(addr.port, 99);
}

#[test]
fn addresses_by_bytes() {
    assert_eq!(Ipv4Addr::new(1, 2, 3, 4).octets(), [1, 2, 3, 4]);
    assert_eq!(
        Ipv6Addr::new(0x0102, 0x0304, 0x0506, 0x0708, 0x090a, 0x0b0c, 0x0d0e, 0xff00).octets(),
        [1, 2, 3, 4, 5, 6, 7, 8, 9, 10, 11, 12, 13, 14, 0xff, 0]
    );
    assert!(Ipv4Addr::new(1, 2, 3, 4).same(&Ipv4Addr::new(1, 2, 3, 4)));
    assert!(!Ipv4Addr::new(1, 2, 3, 4).same(&Ipv4Addr::new(1, 2, 3, 5)));
    let a = Ipv6Addr::new(1, 2, 3, 4, 5, 6, 7, 8);
    assert!(a.same(&a));
    assert!(!a.same(&Ipv6Addr::new(1, 2, 3, 4, 5, 6, 7, 9)));
    assert_eq!(Ipv4Addr::new(1, 2, 3, 4).ip_addr(), IpAddr::V4(Ipv4Addr::new(1, 2, 3, 4)));
    assert_eq!(a.ip_addr(), IpAddr::V6(a));
    assert!(IpAddr::V6(a).same(&IpAddr::V6(a)));
    assert!(!IpAddr::V6(a).same(&IpAddr::V4(Ipv4Addr::new(0, 0, 0, 1))));
}

#[test]
fn access_list_modes() {
    let mut list = AccessList::new();
    assert!(!list.contains(&hash(1)));
    list.insert(hash(1));
    list.insert(hash(2));
    assert!(list.contains(&hash(1)));
    assert!(!list.contains(&hash(3)));
    assert!(list.allows(AccessListMode::Off, &hash(1)));
    assert!(list.allows(AccessListMode::Off, &hash(3)));
    assert!(list.allows(AccessListMode::Allow, &hash(1)));
    assert!(!list.allows(AccessListMode::Allow, &hash(3)));
    assert!(!list.allows(AccessListMode::Deny, &hash(2)));
    assert!(list.allows(AccessListMode::Deny, &hash(3)));
}

#[test]
fn statistics_have_a_counter_for_each_swarm_worker() {
    let statistics = Statistics::new(3);
    assert_eq!(statistics.torrents.len(), 3);
    assert_eq!(statistics.peers.len(), 3);
    assert_eq!(statistics.requests_received.load(std::sync::atomic::Ordering::SeqCst), 0);
    assert_eq!(statistics.peers[2].load(std::sync::atomic::Ordering::SeqCst), 0);
    let state = State::new(2);
    assert_eq!(state.statistics_ipv4.torrents.len(), 2);
    assert_eq!(state.statistics_ipv6.peers.len(), 2);
    assert!(!state.access_list.contains(&hash(1)));
    assert_eq!(Statistics::new(0).torrents.len(), 0);
}

#[test]
fn requests_for_a_load_test() {
    let info_hashes = vec![hash(0), hash(1), hash(2)];
    let key = |n: u8| ConnectionKey {
        connection_id: ConnectionId(n as u64),
        socket_addr: CanonicalSocketAddr::new(IpAddr::V4(Ipv4Addr::new(10, 0, 0, n)), 1000),
    };
    let keys = vec![key(1), key(2), key(3)];
    let draws = vec![vec![2, 0], vec![1, 1], vec![0]];
    let transaction_ids = vec![70, 71, 72];
    let requests = create_requests(&info_hashes, &keys, 2, &draws, &transaction_ids);
    assert_eq!(requests.len(), 2);
    assert_eq!(requests[0].0.connection_id, ConnectionId(1));
    assert_eq!(requests[0].0.transaction_id, TransactionId(70));
    assert_eq!(requests[0].0.info_hashes, vec![hash(2), hash(0)]);
    assert_eq!(requests[0].1, keys[0].socket_addr);
    assert_eq!(requests[1].0.connection_id, ConnectionId(2));
    assert_eq!(requests[1].0.transaction_id, TransactionId(71));
    assert_eq!(requests[1].0.info_hashes, vec![hash(1), hash(1)]);
    assert_eq!(requests[1].1, keys[1].socket_addr);
    assert!(create_requests(&info_hashes, &keys, 0, &draws, &transaction_ids).is_empty());
    // A drawn number beyond the last position stands for the last position; the
    // connection id stays with its own address.
    let far = vec![vec![3, usize::MAX, 2], vec![], vec![0]];
    let requests = create_requests(&info_hashes, &keys, 3, &far, &transaction_ids);
    assert_eq!(requests[0].0.info_hashes, vec![hash(2), hash(2), hash(2)]);
    assert!(requests[1].0.info_hashes.is_empty());
    for (request, key) in requests.iter().zip(keys.iter()) {
        assert_eq!(request.0.connection_id, key.connection_id);
        assert_eq!(request.1, key.socket_addr);
    }
}
