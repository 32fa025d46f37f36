use tracker_core::common::{
    AnnounceEvent, AnnounceInterval, ConnectionId, InfoHash, NumberOfBytes, NumberOfDownloads,
    NumberOfPeers, PeerId, PeerKey, Port, TransactionId,
};
use tracker_core::net::{Ipv4Addr, Ipv6Addr};
use tracker_core::protocol::request::{PacketTooLarge, ParseFailure, RequestParseError};
use tracker_core::protocol::response::ResponseParseFailure;
use tracker_core::protocol::types::{
    AnnounceRequest, AnnounceResponse, ConnectRequest, ConnectResponse, ErrorResponse, Request,
    Response, ResponsePeer, ScrapeRequest, ScrapeResponse, TorrentScrapeStatistics,
    PROTOCOL_IDENTIFIER,
};
use tracker_core::protocol::wire::{put_i32, put_u16, put_u32, put_u64, read_i32, read_u16, read_u32, read_u64};

fn hash(first: u8) -> InfoHash {
    let mut bytes = [0u8; 20];
    bytes[0] = first;
    bytes[19] = 1;
    InfoHash(bytes)
}

fn announce_request() -> AnnounceRequest {
    let mut peer = [0u8; 20];
    for (i, b) in peer.iter_mut().enumerate() {
        *b = 0xa0 + i as u8;
    }
    AnnounceRequest {
        connection_id: ConnectionId(0x0102030405060708),
        transaction_id: TransactionId(0x11121314),
        info_hash: hash(0x42),
        peer_id: PeerId(peer),
        bytes_downloaded: NumberOfBytes(1),
        bytes_left: NumberOfBytes(0x0000010000000002),
        bytes_uploaded: NumberOfBytes(3),
        event: AnnounceEvent::Started,
        ip_address: Some(Ipv4Addr::new(192, 168, 1, 2)),
        key: PeerKey(0xdeadbeef),
        peers_wanted: -1,
        port: Port(6881),
    }
}

#[test]
fn integers_are_written_in_network_order() {
    let mut buf = Vec::new();
    put_u16(&mut buf, 0x1234);
    put_u32(&mut buf, 0x89abcdef);
    put_u64(&mut buf, 0x0102030405060708);
    put_i32(&mut buf, -1);
    put_i32(&mut buf, -2147483648);
    put_i32(&mut buf, 5);
    assert_eq!(
        buf,
        vec![
            0x12, 0x34, 0x89, 0xab, 0xcd, 0xef, 1, 2, 3, 4, 5, 6, 7, 8, 0xff, 0xff, 0xff, 0xff, 0x80,
            0, 0, 0, 0, 0, 0, 5
        ]
    );
    assert_eq!(read_u16(&buf, 0), 0x1234);
    assert_eq!(read_u32(&buf, 2), 0x89abcdef);
    assert_eq!(read_u64(&buf, 6), 0x0102030405060708);
    assert_eq!(read_i32(&buf, 14), -1);
    assert_eq!(read_i32(&buf, 18), i32::MIN);
    assert_eq!(read_i32(&buf, 22), 5);
}

#[test]
fn connect_request_bytes() {
    assert_eq!(PROTOCOL_IDENTIFIER, 0x41727101980);
    let request = Request::Connect(ConnectRequest { transaction_id: TransactionId(0x01020304) });
    let mut buf = Vec::new();
    request.write(&mut buf).unwrap();
    assert_eq!(buf, vec![0, 0, 0x04, 0x17, 0x27, 0x10, 0x19, 0x80, 0, 0, 0, 0, 1, 2, 3, 4]);
    assert_eq!(Request::from_bytes(&buf, 74), Ok(request));
}

#[test]
fn announce_request_bytes() {
    let request = Request::Announce(announce_request());
    let mut buf = Vec::new();
    request.write(&mut buf).unwrap();
    assert_eq!(buf.len(), 98);
    assert_eq!(&buf[0..8], &[1, 2, 3, 4, 5, 6, 7, 8]);
    assert_eq!(&buf[8..12], &[0, 0, 0, 1]);
    assert_eq!(&buf[12..16], &[0x11, 0x12, 0x13, 0x14]);
    assert_eq!(buf[16], 0x42);
    assert_eq!(buf[35], 1);
    assert_eq!(buf[36], 0xa0);
    assert_eq!(buf[55], 0xb3);
    assert_eq!(&buf[56..64], &[0, 0, 0, 0, 0, 0, 0, 1]);
    assert_eq!(&buf[64..72], &[0, 0, 1, 0, 0, 0, 0, 2]);
    assert_eq!(&buf[72..80], &[0, 0, 0, 0, 0, 0, 0, 3]);
    assert_eq!(&buf[80..84], &[0, 0, 0, 2]);
    assert_eq!(&buf[84..88], &[192, 168, 1, 2]);
    assert_eq!(&buf[88..92], &[0xde, 0xad, 0xbe, 0xef]);
    assert_eq!(&buf[92..96], &[0xff, 0xff, 0xff, 0xff]);
    assert_eq!(&buf[96..98], &[0x1a, 0xe1]);
    assert_eq!(Request::from_bytes(&buf, 74), Ok(request));
}

#[test]
fn announce_events_on_the_wire() {
    let codes = [
        (AnnounceEvent::NoEvent, 0u8),
        (AnnounceEvent::Completed, 1),
        (AnnounceEvent::Started, 2),
        (AnnounceEvent::Stopped, 3),
    ];
    for (event, code) in codes {
        let mut announce = announce_request();
        announce.event = event;
        let mut buf = Vec::new();
        Request::Announce(announce).write(&mut buf).unwrap();
        assert_eq!(&buf[80..84], &[0, 0, 0, code]);
        assert_eq!(Request::from_bytes(&buf, 74), Ok(Request::Announce(announce)));
    }
    let mut buf = Vec::new();
    Request::Announce(announce_request()).write(&mut buf).unwrap();
    buf[83] = 9;
    let mut expected = announce_request();
    expected.event = AnnounceEvent::NoEvent;
    assert_eq!(Request::from_bytes(&buf, 74), Ok(Request::Announce(expected)));
}

#[test]
fn announce_without_address_round_trips_after_normalizing() {
    let mut absent = announce_request();
    absent.ip_address = None;
    let mut zero = announce_request();
    zero.ip_address = Some(Ipv4Addr::new(0, 0, 0, 0));

    let mut buf_absent = Vec::new();
    Request::Announce(absent).write(&mut buf_absent).unwrap();
    let mut buf_zero = Vec::new();
    Request::Announce(zero).write(&mut buf_zero).unwrap();
    assert_eq!(buf_absent, buf_zero);
    assert_eq!(&buf_absent[84..88], &[0, 0, 0, 0]);

    let mut decoded = Request::from_bytes(&buf_zero, 74).unwrap();
    assert_eq!(decoded, Request::Announce(absent));
    decoded.normalize_ip();
    let mut original = Request::Announce(absent);
    original.normalize_ip();
    assert_eq!(decoded, original);
    assert_eq!(original, Request::Announce(zero));
}

#[test]
fn normalize_ip_leaves_other_requests_alone() {
    let mut connect = Request::Connect(ConnectRequest { transaction_id: TransactionId(1) });
    connect.normalize_ip();
    assert_eq!(connect, Request::Connect(ConnectRequest { transaction_id: TransactionId(1) }));
    let mut named = Request::Announce(announce_request());
    named.normalize_ip();
    assert_eq!(named, Request::Announce(announce_request()));
}

#[test]
fn scrape_request_round_trip() {
    let request = Request::Scrape(ScrapeRequest {
        connection_id: ConnectionId(77),
        transaction_id: TransactionId(5),
        info_hashes: vec![hash(1), hash(2), hash(3)],
    });
    let mut buf = Vec::new();
    request.write(&mut buf).unwrap();
    assert_eq!(buf.len(), 16 + 3 * 20);
    assert_eq!(&buf[8..12], &[0, 0, 0, 2]);
    assert_eq!(buf[16], 1);
    assert_eq!(buf[36], 2);
    assert_eq!(buf[56], 3);
    assert_eq!(Request::from_bytes(&buf, 74), Ok(request));
}

#[test]
fn scrape_request_reads_no_more_hashes_than_allowed() {
    let hashes: Vec<InfoHash> = (0..80).map(|i| hash(i as u8)).collect();
    let request = Request::Scrape(ScrapeRequest {
        connection_id: ConnectionId(77),
        transaction_id: TransactionId(5),
        info_hashes: hashes.clone(),
    });
    let mut buf = Vec::new();
    request.write(&mut buf).unwrap();
    buf.extend_from_slice(&[1, 2, 3]);
    let expected = Request::Scrape(ScrapeRequest {
        connection_id: ConnectionId(77),
        transaction_id: TransactionId(5),
        info_hashes: hashes[..74].to_vec(),
    });
    assert_eq!(Request::from_bytes(&buf, 74), Ok(expected));
    assert_eq!(Request::from_bytes(&buf, u8::MAX), Ok(request));
}

#[test]
fn request_parse_failures() {
    assert_eq!(
        Request::from_bytes(&[0u8; 15], 74),
        Err(RequestParseError::Unsendable { reason: ParseFailure::TooShort })
    );
    assert_eq!(
        Request::from_bytes(&[], 74),
        Err(RequestParseError::Unsendable { reason: ParseFailure::TooShort })
    );
    // A connect request without the protocol's number.
    let mut connect = vec![0u8; 16];
    connect[15] = 9;
    assert_eq!(
        Request::from_bytes(&connect, 74),
        Err(RequestParseError::Unsendable { reason: ParseFailure::ProtocolIdentifierMissing })
    );
    // An announce that ends too early.
    let mut buf = Vec::new();
    Request::Announce(announce_request()).write(&mut buf).unwrap();
    assert_eq!(
        Request::from_bytes(&buf[..97], 74),
        Err(RequestParseError::Sendable {
            connection_id: ConnectionId(0x0102030405060708),
            transaction_id: TransactionId(0x11121314),
            reason: ParseFailure::TruncatedAnnounce,
        })
    );
    // A scrape without an info hash.
    let mut scrape = vec![0u8; 16 + 19];
    scrape[7] = 3;
    scrape[11] = 2;
    scrape[15] = 4;
    assert_eq!(
        Request::from_bytes(&scrape, 74),
        Err(RequestParseError::Sendable {
            connection_id: ConnectionId(3),
            transaction_id: TransactionId(4),
            reason: ParseFailure::NoInfoHash,
        })
    );
    scrape.extend_from_slice(&[0u8; 21]);
    assert_eq!(
        Request::from_bytes(&scrape, 0),
        Err(RequestParseError::Sendable {
            connection_id: ConnectionId(3),
            transaction_id: TransactionId(4),
            reason: ParseFailure::NoInfoHash,
        })
    );
    // An action that no client can ask for.
    let mut other = vec![0u8; 16];
    other[7] = 3;
    other[11] = 3;
    other[15] = 4;
    assert_eq!(
        Request::from_bytes(&other, 74),
        Err(RequestParseError::Sendable {
            connection_id: ConnectionId(3),
            transaction_id: TransactionId(4),
            reason: ParseFailure::InvalidAction,
        })
    );
}

#[test]
fn scrape_request_that_is_too_large_is_not_written() {
    let request = Request::Scrape(ScrapeRequest {
        connection_id: ConnectionId(77),
        transaction_id: TransactionId(5),
        info_hashes: vec![hash(1); 409],
    });
    let mut buf = vec![1u8];
    assert_eq!(request.write(&mut buf), Err(PacketTooLarge));
    assert_eq!(buf, vec![1u8]);
    let request = Request::Scrape(ScrapeRequest {
        connection_id: ConnectionId(77),
        transaction_id: TransactionId(5),
        info_hashes: vec![hash(1); 408],
    });
    assert_eq!(request.write(&mut buf), Ok(()));
    assert_eq!(buf.len(), 1 + 16 + 408 * 20);
}

#[test]
fn connect_response_bytes() {
    let response = Response::Connect(ConnectResponse {
        connection_id: ConnectionId(0x0102030405060708),
        transaction_id: TransactionId(0x0a0b0c0d),
    });
    let mut buf = Vec::new();
    response.write(&mut buf).unwrap();
    assert_eq!(buf, vec![0, 0, 0, 0, 0x0a, 0x0b, 0x0c, 0x0d, 1, 2, 3, 4, 5, 6, 7, 8]);
    assert_eq!(Response::from_bytes(&buf, true), Ok(response.clone()));
    assert_eq!(Response::from_bytes(&buf, false), Ok(response));
}

#[test]
fn announce_response_ipv4_bytes() {
    let response = Response::AnnounceIpv4(AnnounceResponse {
        transaction_id: TransactionId(1),
        announce_interval: AnnounceInterval(0x0708),
        leechers: NumberOfPeers(2),
        seeders: NumberOfPeers(3),
        peers: vec![
            ResponsePeer { ip_address: Ipv4Addr::new(10, 0, 0, 1), port: Port(0x1234) },
            ResponsePeer { ip_address: Ipv4Addr::new(127, 0, 0, 1), port: Port(80) },
        ],
    });
    let mut buf = Vec::new();
    response.write(&mut buf).unwrap();
    assert_eq!(
        buf,
        vec![
            0, 0, 0, 1, 0, 0, 0, 1, 0, 0, 7, 8, 0, 0, 0, 2, 0, 0, 0, 3, 10, 0, 0, 1, 0x12, 0x34, 127,
            0, 0, 1, 0, 80
        ]
    );
    assert_eq!(Response::from_bytes(&buf, true), Ok(response));
}

#[test]
fn announce_response_ipv6_round_trip() {
    let response = Response::AnnounceIpv6(AnnounceResponse {
        transaction_id: TransactionId(1),
        announce_interval: AnnounceInterval(0x0708),
        leechers: NumberOfPeers(2),
        seeders: NumberOfPeers(3),
        peers: vec![
            ResponsePeer { ip_address: Ipv6Addr::new(0x2001, 0xdb8, 0, 0, 0, 0, 0, 1), port: Port(0x1234) },
            ResponsePeer { ip_address: Ipv6Addr::new(1, 2, 3, 4, 5, 6, 7, 8), port: Port(80) },
        ],
    });
    let mut buf = Vec::new();
    response.write(&mut buf).unwrap();
    assert_eq!(buf.len(), 20 + 2 * 18);
    assert_eq!(&buf[20..38], &[0x20, 0x01, 0x0d, 0xb8, 0, 0, 0, 0, 0, 0, 0, 0, 0, 0, 0, 1, 0x12, 0x34]);
    assert_eq!(Response::from_bytes(&buf, false), Ok(response));
    // Read with peers of the other family, the same bytes are six peers.
    match Response::from_bytes(&buf, true) {
        Ok(Response::AnnounceIpv4(r)) => assert_eq!(r.peers.len(), 6),
        other => panic!("unexpected {:?}", other),
    }
}

#[test]
fn scrape_response_bytes() {
    let response = Response::Scrape(ScrapeResponse {
        transaction_id: TransactionId(2),
        torrent_stats: vec![
            TorrentScrapeStatistics {
                seeders: NumberOfPeers(1),
                completed: NumberOfDownloads(2),
                leechers: NumberOfPeers(3),
            },
            TorrentScrapeStatistics {
                seeders: NumberOfPeers(0x01000000),
                completed: NumberOfDownloads(0),
                leechers: NumberOfPeers(u32::MAX),
            },
        ],
    });
    let mut buf = Vec::new();
    response.write(&mut buf).unwrap();
    assert_eq!(
        buf,
        vec![
            0, 0, 0, 2, 0, 0, 0, 2, 0, 0, 0, 1, 0, 0, 0, 2, 0, 0, 0, 3, 1, 0, 0, 0, 0, 0, 0, 0, 0xff,
            0xff, 0xff, 0xff
        ]
    );
    assert_eq!(Response::from_bytes(&buf, true), Ok(response));
}

#[test]
fn error_response_bytes() {
    let response = Response::Error(ErrorResponse {
        transaction_id: TransactionId(3),
        message: "Parse error".to_string(),
    });
    let mut buf = Vec::new();
    response.write(&mut buf).unwrap();
    assert_eq!(&buf[..8], &[0, 0, 0, 3, 0, 0, 0, 3]);
    assert_eq!(&buf[8..], "Parse error".as_bytes());
    assert_eq!(buf.len(), 19);
    assert_eq!(Response::from_bytes(&buf, true), Ok(response));
}

#[test]
fn error_response_with_text_beyond_ascii_round_trips() {
    let response = Response::Error(ErrorResponse {
        transaction_id: TransactionId(3),
        message: "nicht erlaubt: \u{fc}\u{20ac}".to_string(),
    });
    let mut buf = Vec::new();
    response.write(&mut buf).unwrap();
    assert_eq!(Response::from_bytes(&buf, false), Ok(response));
}

#[test]
fn response_parse_failures() {
    assert_eq!(Response::from_bytes(&[0u8; 7], true), Err(ResponseParseFailure::TooShort));
    assert_eq!(Response::from_bytes(&[0u8; 15], true), Err(ResponseParseFailure::TooShort));
    let mut announce = vec![0u8; 19];
    announce[3] = 1;
    assert_eq!(Response::from_bytes(&announce, true), Err(ResponseParseFailure::TooShort));
    let mut error = vec![0, 0, 0, 3, 0, 0, 0, 1];
    error.extend_from_slice(&[0xff, 0xfe]);
    assert_eq!(Response::from_bytes(&error, true), Err(ResponseParseFailure::InvalidMessage));
    let other = vec![0, 0, 0, 4, 0, 0, 0, 1];
    assert_eq!(Response::from_bytes(&other, true), Err(ResponseParseFailure::InvalidAction));
}

#[test]
fn empty_scrape_and_error_responses() {
    let bytes = vec![0, 0, 0, 2, 0, 0, 0, 9, 1, 2, 3];
    assert_eq!(
        Response::from_bytes(&bytes, true),
        Ok(Response::Scrape(ScrapeResponse { transaction_id: TransactionId(9), torrent_stats: vec![] }))
    );
    let bytes = vec![0, 0, 0, 3, 0, 0, 0, 9];
    assert_eq!(
        Response::from_bytes(&bytes, true),
        Ok(Response::Error(ErrorResponse { transaction_id: TransactionId(9), message: String::new() }))
    );
}
