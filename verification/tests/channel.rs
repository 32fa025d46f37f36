use std::collections::BTreeMap;

use crossbeam_channel::{bounded, unbounded};

use tracker_core::channel::{
    drop_unsent, ConnectedRequestSender, ConnectedResponseSender, SendStatus, TrySendOutcome,
};
use tracker_core::common::{SocketWorkerIndex, SwarmWorkerIndex};
use tracker_core::messages::{ConnectedRequest, ConnectedResponse};
use tracker_core::net::{CanonicalSocketAddr, IpAddr, Ipv4Addr};
use tracker_core::pending_scrape::{PendingScrapeRequest, PendingScrapeResponse};

fn addr() -> CanonicalSocketAddr {
    CanonicalSocketAddr::new(IpAddr::V4(Ipv4Addr::new(10, 1, 2, 3)), 4)
}

fn request(slab_key: usize) -> ConnectedRequest {
    ConnectedRequest::Scrape(PendingScrapeRequest { slab_key, info_hashes: BTreeMap::new() })
}

fn response(slab_key: usize) -> ConnectedResponse {
    ConnectedResponse::Scrape(PendingScrapeResponse { slab_key, torrent_stats: BTreeMap::new() })
}

#[test]
fn request_reaches_the_chosen_swarm_worker() {
    let (first, first_receiver) = unbounded();
    let (second, second_receiver) = unbounded();
    let sender = ConnectedRequestSender::new(SocketWorkerIndex(5), vec![first, second]);
    assert_eq!(sender.num_workers(), 2);
    assert_eq!(sender.try_send_to(SwarmWorkerIndex(1), request(9), addr()).status(), SendStatus::Sent);
    assert!(first_receiver.try_recv().is_err());
    let (from, message, source) = second_receiver.try_recv().unwrap();
    assert_eq!(from.0, 5);
    assert_eq!(source, addr());
    match message {
        ConnectedRequest::Scrape(r) => assert_eq!(r.slab_key, 9),
        other => panic!("unexpected {:?}", other),
    }
}

#[test]
fn request_for_a_full_channel_is_dropped() {
    let (only, receiver) = bounded(1);
    let sender = ConnectedRequestSender::new(SocketWorkerIndex(0), vec![only]);
    assert_eq!(sender.try_send_to(SwarmWorkerIndex(0), request(1), addr()).status(), SendStatus::Sent);
    match sender.try_send_to(SwarmWorkerIndex(0), request(2), addr()) {
        TrySendOutcome::Full((from, ConnectedRequest::Scrape(r), source)) => {
            assert_eq!(from.0, 0);
            assert_eq!(r.slab_key, 2);
            assert_eq!(source, addr());
        }
        other => panic!("unexpected {:?}", other),
    }
    match receiver.try_recv().unwrap().1 {
        ConnectedRequest::Scrape(r) => assert_eq!(r.slab_key, 1),
        other => panic!("unexpected {:?}", other),
    }
    assert!(receiver.try_recv().is_err());
    drop(receiver);
    let outcome = sender.try_send_to(SwarmWorkerIndex(0), request(3), addr());
    assert_eq!(outcome.status(), SendStatus::Disconnected);
    match outcome {
        TrySendOutcome::Disconnected((_, ConnectedRequest::Scrape(r), _)) => assert_eq!(r.slab_key, 3),
        other => panic!("unexpected {:?}", other),
    }
    assert_eq!(
        drop_unsent(sender.try_send_to(SwarmWorkerIndex(0), request(4), addr())),
        SendStatus::Disconnected
    );
}

#[test]
fn response_reaches_the_chosen_socket_worker() {
    let (first, first_receiver) = bounded(1);
    let (second, second_receiver) = bounded(1);
    let sender = ConnectedResponseSender::new(vec![first, second]);
    assert_eq!(sender.num_workers(), 2);
    assert_eq!(sender.try_send_to(SocketWorkerIndex(0), response(4), addr()).status(), SendStatus::Sent);
    match sender.try_send_to(SocketWorkerIndex(0), response(5), addr()) {
        TrySendOutcome::Full((ConnectedResponse::Scrape(r), source)) => {
            assert_eq!(r.slab_key, 5);
            assert_eq!(source, addr());
        }
        other => panic!("unexpected {:?}", other),
    }
    assert!(second_receiver.try_recv().is_err());
    let (message, source) = first_receiver.try_recv().unwrap();
    assert_eq!(source, addr());
    match message {
        ConnectedResponse::Scrape(r) => assert_eq!(r.slab_key, 4),
        other => panic!("unexpected {:?}", other),
    }
    drop(second_receiver);
    assert_eq!(
        sender.try_send_to(SocketWorkerIndex(1), response(6), addr()).status(),
        SendStatus::Disconnected
    );
}

#[test]
fn message_and_channel_of_a_request() {
    let (first, first_receiver) = unbounded();
    let (second, second_receiver) = unbounded();
    let sender = ConnectedRequestSender::new(SocketWorkerIndex(3), vec![first, second]);
    let (from, message, source) = sender.request_message(request(8), addr());
    assert_eq!(from.0, 3);
    assert_eq!(source, addr());
    assert!(matches!(message, ConnectedRequest::Scrape(ref r) if r.slab_key == 8));
    // The channel of a worker is the one that this worker reads.
    sender.sender_of(SwarmWorkerIndex(1)).send((from, message, source)).unwrap();
    assert!(first_receiver.try_recv().is_err());
    assert_eq!(second_receiver.try_recv().unwrap().0 .0, 3);
    // Every request goes to the channel of the worker it is sent to, and to no other.
    for n in 0..10usize {
        let outcome = sender.try_send_to(SwarmWorkerIndex(n % 2), request(n), addr());
        assert_eq!(outcome.status(), SendStatus::Sent);
    }
    let keys = |receiver: &crossbeam_channel::Receiver<(SocketWorkerIndex, ConnectedRequest, CanonicalSocketAddr)>| {
        let mut keys = Vec::new();
        while let Ok((from, message, _)) = receiver.try_recv() {
            assert_eq!(from.0, 3);
            match message {
                ConnectedRequest::Scrape(r) => keys.push(r.slab_key),
                other => panic!("unexpected {:?}", other),
            }
        }
        keys
    };
    assert_eq!(keys(&first_receiver), vec![0, 2, 4, 6, 8]);
    assert_eq!(keys(&second_receiver), vec![1, 3, 5, 7, 9]);
}

#[test]
fn message_and_channel_of_a_response() {
    let (first, first_receiver) = unbounded();
    let (second, second_receiver) = unbounded();
    let sender = ConnectedResponseSender::new(vec![first, second]);
    let (message, source) = ConnectedResponseSender::response_message(response(8), addr());
    assert_eq!(source, addr());
    assert!(matches!(message, ConnectedResponse::Scrape(ref r) if r.slab_key == 8));
    sender.sender_of(SocketWorkerIndex(0)).send((message, source)).unwrap();
    assert!(second_receiver.try_recv().is_err());
    assert!(first_receiver.try_recv().is_ok());
}
