//! Requests on the wire: how a request is written, and which request, if
//! any, a datagram holds.

use vstd::prelude::*;

use crate::common::{
    AnnounceEvent, ConnectionId, InfoHash, NumberOfBytes, PeerId, PeerKey, Port, TransactionId,
    MAX_PACKET_SIZE,
};
use crate::net::Ipv4Addr;
use crate::protocol::types::{
    AnnounceRequest, ConnectRequest, Request, ScrapeRequest, PROTOCOL_IDENTIFIER,
};
use crate::protocol::wire::{
    be_u16, be_u32, be_u64, bits_of_i32, i32_of_bits, lemma_i32_round_trip, lemma_u16_round_trip,
    lemma_u32_round_trip, lemma_u64_round_trip, put_bytes, put_i32, put_u16, put_u32, put_u64,
    read_20, read_i32, read_u16, read_u32, read_u64, u16_from_be, u32_from_be, u64_from_be,
};

verus! {

/// Length of a connect request, and of what every request begins with.
pub const REQUEST_HEADER_LEN: usize = 16;

/// Length of an announce request.
pub const ANNOUNCE_REQUEST_LEN: usize = 98;

/// Why a datagram holds no request.
#[derive(Clone, Copy, Debug, PartialEq, Eq, Structural)]
pub enum ParseFailure {
    /// The datagram is shorter than any request.
    TooShort,
    /// A connect request without the number that opens it.
    ProtocolIdentifierMissing,
    /// An announce request that ends too early.
    TruncatedAnnounce,
    /// A scrape request without a single info hash.
    NoInfoHash,
    /// The action is none that a client can ask for.
    InvalidAction,
}

/// A datagram that holds no request.
#[derive(Clone, Copy, Debug, PartialEq, Eq, Structural)]
pub enum RequestParseError {
    /// The ids of the request could be read, so an error response can be
    /// sent.
    Sendable { connection_id: ConnectionId, transaction_id: TransactionId, reason: ParseFailure },
    /// Nothing tells whom to answer.
    Unsendable { reason: ParseFailure },
}

/// A datagram that would be larger than the protocol allows.
#[derive(Clone, Copy, Debug, PartialEq, Eq, Structural)]
pub struct PacketTooLarge;

/// A scrape request with its info hashes as a sequence.
pub struct ScrapeRequestView {
    pub connection_id: ConnectionId,
    pub transaction_id: TransactionId,
    pub info_hashes: Seq<InfoHash>,
}

/// A request with its info hashes as a sequence.
pub enum RequestView {
    Connect(ConnectRequest),
    Announce(AnnounceRequest),
    Scrape(ScrapeRequestView),
}

impl View for ScrapeRequest {
    type V = ScrapeRequestView;

    open spec fn view(&self) -> ScrapeRequestView {
        ScrapeRequestView {
            connection_id: self.connection_id,
            transaction_id: self.transaction_id,
            info_hashes: self.info_hashes@,
        }
    }
}

impl View for Request {
    type V = RequestView;

    open spec fn view(&self) -> RequestView {
        match *self {
            Request::Connect(r) => RequestView::Connect(r),
            Request::Announce(r) => RequestView::Announce(r),
            Request::Scrape(r) => RequestView::Scrape(r@),
        }
    }
}

/// Number that stands for an event on the wire.
pub open spec fn event_code(event: AnnounceEvent) -> u32 {
    match event {
        AnnounceEvent::NoEvent => 0,
        AnnounceEvent::Completed => 1,
        AnnounceEvent::Started => 2,
        AnnounceEvent::Stopped => 3,
    }
}

/// Event that a number on the wire stands for; an unknown number stands
/// for no event.
pub open spec fn event_of_code(code: u32) -> AnnounceEvent {
    if code == 1 {
        AnnounceEvent::Completed
    } else if code == 2 {
        AnnounceEvent::Started
    } else if code == 3 {
        AnnounceEvent::Stopped
    } else {
        AnnounceEvent::NoEvent
    }
}

/// Twenty bytes as an identifier.
pub open spec fn bytes20(b: Seq<u8>) -> [u8; 20] {
    [
        b[0],
        b[1],
        b[2],
        b[3],
        b[4],
        b[5],
        b[6],
        b[7],
        b[8],
        b[9],
        b[10],
        b[11],
        b[12],
        b[13],
        b[14],
        b[15],
        b[16],
        b[17],
        b[18],
        b[19],
    ]
}

/// An identifier is the identifier that its bytes make.
pub proof fn lemma_bytes20(a: [u8; 20])
    ensures
        bytes20(a@) == a,
{
    assert(bytes20(a@) =~= a);
}

/// The four bytes an announce carries for the address the client wants to
/// be listed under; zeros where it names none.
pub open spec fn address_code(ip: Option<Ipv4Addr>) -> Seq<u8> {
    match ip {
        Some(a) => a.octets@,
        None => seq![0u8, 0u8, 0u8, 0u8],
    }
}

/// The address that four bytes of an announce stand for; zeros stand for
/// none.
pub open spec fn address_of_code(b: Seq<u8>) -> Option<Ipv4Addr> {
    if b[0] == 0 && b[1] == 0 && b[2] == 0 && b[3] == 0 {
        None
    } else {
        Some(Ipv4Addr { octets: [b[0], b[1], b[2], b[3]] })
    }
}

/// The info hashes one after the other.
pub open spec fn encoded_hashes(hashes: Seq<InfoHash>) -> Seq<u8> {
    Seq::new(hashes.len() * 20, |i: int| hashes[i / 20].0[i % 20])
}

pub open spec fn encoded_connect(r: ConnectRequest) -> Seq<u8> {
    be_u64(PROTOCOL_IDENTIFIER) + be_u32(0) + be_u32(r.transaction_id.0)
}

pub open spec fn encoded_announce(r: AnnounceRequest) -> Seq<u8> {
    be_u64(r.connection_id.0) + be_u32(1) + be_u32(r.transaction_id.0) + r.info_hash.0@
        + r.peer_id.0@ + be_u64(r.bytes_downloaded.0) + be_u64(r.bytes_left.0) + be_u64(
        r.bytes_uploaded.0,
    ) + be_u32(event_code(r.event)) + address_code(r.ip_address) + be_u32(r.key.0) + be_u32(
        bits_of_i32(r.peers_wanted),
    ) + be_u16(r.port.0)
}

pub open spec fn encoded_scrape(r: ScrapeRequestView) -> Seq<u8> {
    be_u64(r.connection_id.0) + be_u32(2) + be_u32(r.transaction_id.0) + encoded_hashes(
        r.info_hashes,
    )
}

/// The bytes of a request on the wire.
pub open spec fn encoded_request(r: RequestView) -> Seq<u8> {
    match r {
        RequestView::Connect(c) => encoded_connect(c),
        RequestView::Announce(a) => encoded_announce(a),
        RequestView::Scrape(s) => encoded_scrape(s),
    }
}

/// The announce request in the first 98 bytes of `b`.
pub open spec fn parsed_announce(b: Seq<u8>) -> AnnounceRequest {
    AnnounceRequest {
        connection_id: ConnectionId(u64_from_be(b.subrange(0, 8))),
        transaction_id: TransactionId(u32_from_be(b.subrange(12, 16))),
        info_hash: InfoHash(bytes20(b.subrange(16, 36))),
        peer_id: PeerId(bytes20(b.subrange(36, 56))),
        bytes_downloaded: NumberOfBytes(u64_from_be(b.subrange(56, 64))),
        bytes_left: NumberOfBytes(u64_from_be(b.subrange(64, 72))),
        bytes_uploaded: NumberOfBytes(u64_from_be(b.subrange(72, 80))),
        event: event_of_code(u32_from_be(b.subrange(80, 84))),
        ip_address: address_of_code(b.subrange(84, 88)),
        key: PeerKey(u32_from_be(b.subrange(88, 92))),
        peers_wanted: i32_of_bits(u32_from_be(b.subrange(92, 96))),
        port: Port(u16_from_be(b.subrange(96, 98))),
    }
}

/// Number of info hashes read from a scrape request of `len` bytes when at
/// most `max_scrape_torrents` are read.
pub open spec fn scrape_count(len: nat, max_scrape_torrents: u8) -> nat {
    let whole = ((len - 16) / 20) as nat;
    if whole > max_scrape_torrents {
        max_scrape_torrents as nat
    } else {
        whole
    }
}

/// The info hash at position `i` of a scrape request.
pub open spec fn parsed_hash(b: Seq<u8>, i: int) -> InfoHash {
    InfoHash(bytes20(b.subrange(16 + 20 * i, 36 + 20 * i)))
}

/// The request that the datagram `b` holds, or why it holds none.
///
/// Every request begins with a connection id, an action and a transaction
/// id. A connect request has the protocol's number in place of the
/// connection id. An announce request has 98 bytes; what follows them is
/// ignored. A scrape request has an info hash; of those that follow, at
/// most `max_scrape_torrents` are read, and bytes that make no whole info
/// hash are ignored.
pub open spec fn parsed_request(b: Seq<u8>, max_scrape_torrents: u8) -> Result<
    RequestView,
    RequestParseError,
> {
    if b.len() < 16 {
        Err(RequestParseError::Unsendable { reason: ParseFailure::TooShort })
    } else {
        let connection_id = ConnectionId(u64_from_be(b.subrange(0, 8)));
        let action = u32_from_be(b.subrange(8, 12));
        let transaction_id = TransactionId(u32_from_be(b.subrange(12, 16)));
        if action == 0 {
            if connection_id.0 == PROTOCOL_IDENTIFIER {
                Ok(RequestView::Connect(ConnectRequest { transaction_id }))
            } else {
                Err(
                    RequestParseError::Unsendable {
                        reason: ParseFailure::ProtocolIdentifierMissing,
                    },
                )
            }
        } else if action == 1 {
            if b.len() < 98 {
                Err(
                    RequestParseError::Sendable {
                        connection_id,
                        transaction_id,
                        reason: ParseFailure::TruncatedAnnounce,
                    },
                )
            } else {
                Ok(RequestView::Announce(parsed_announce(b)))
            }
        } else if action == 2 {
            let count = scrape_count(b.len(), max_scrape_torrents);
            if count == 0 {
                Err(
                    RequestParseError::Sendable {
                        connection_id,
                        transaction_id,
                        reason: ParseFailure::NoInfoHash,
                    },
                )
            } else {
                Ok(
                    RequestView::Scrape(
                        ScrapeRequestView {
                            connection_id,
                            transaction_id,
                            info_hashes: Seq::new(count, |i: int| parsed_hash(b, i)),
                        },
                    ),
                )
            }
        } else {
            Err(
                RequestParseError::Sendable {
                    connection_id,
                    transaction_id,
                    reason: ParseFailure::InvalidAction,
                },
            )
        }
    }
}

/// What `from_bytes` returned, with the request by its view.
pub open spec fn request_outcome(r: Result<Request, RequestParseError>) -> Result<
    RequestView,
    RequestParseError,
> {
    match r {
        Ok(request) => Ok(request@),
        Err(e) => Err(e),
    }
}

/// A request with an announce that names no address turned into one that
/// names the address `0.0.0.0`, which is written with the same bytes.
pub open spec fn normalized(r: RequestView) -> RequestView {
    match r {
        RequestView::Announce(a) => RequestView::Announce(
            AnnounceRequest { ip_address: normalized_address(a.ip_address), ..a },
        ),
        other => other,
    }
}

pub open spec fn normalized_address(ip: Option<Ipv4Addr>) -> Option<Ipv4Addr> {
    match ip {
        None => Some(Ipv4Addr { octets: [0u8, 0u8, 0u8, 0u8] }),
        Some(a) => Some(a),
    }
}

fn put_event(buf: &mut Vec<u8>, event: AnnounceEvent)
    ensures
        final(buf)@ == old(buf)@ + be_u32(event_code(event)),
{
    let code: u32 = match event {
        AnnounceEvent::NoEvent => 0,
        AnnounceEvent::Completed => 1,
        AnnounceEvent::Started => 2,
        AnnounceEvent::Stopped => 3,
    };
    put_u32(buf, code);
}

fn put_address(buf: &mut Vec<u8>, ip: &Option<Ipv4Addr>)
    ensures
        final(buf)@ == old(buf)@ + address_code(*ip),
{
    match ip {
        Some(a) => {
            put_bytes(buf, a.octets.as_slice());
        },
        None => {
            buf.push(0);
            buf.push(0);
            buf.push(0);
            buf.push(0);
            assert(buf@ =~= old(buf)@ + address_code(*ip));
        },
    }
}

fn put_hashes(buf: &mut Vec<u8>, hashes: &Vec<InfoHash>)
    ensures
        final(buf)@ == old(buf)@ + encoded_hashes(hashes@),
{
    let mut i: usize = 0;
    assert(buf@ =~= old(buf)@ + encoded_hashes(hashes@.take(0)));
    while i < hashes.len()
        invariant
            i <= hashes@.len(),
            buf@ == old(buf)@ + encoded_hashes(hashes@.take(i as int)),
        decreases hashes.len() - i,
    {
        put_bytes(buf, hashes[i].0.as_slice());
        proof {
            let before = encoded_hashes(hashes@.take(i as int));
            let after = encoded_hashes(hashes@.take(i + 1));
            assert(after.len() == before.len() + 20);
            assert forall|k: int| 0 <= k < after.len() implies after[k] == (before
                + hashes@[i as int].0@)[k] by {
                if k < before.len() {
                    assert(k / 20 < i);
                } else {
                    assert(k / 20 == i);
                    assert(k % 20 == k - 20 * i);
                }
            }
            assert(after =~= before + hashes@[i as int].0@);
        }
        i += 1;
    }
    assert(hashes@.take(hashes@.len() as int) =~= hashes@);
}

impl AnnounceRequest {
    /// The request that names the address `0.0.0.0` where this one names
    /// none.
    pub fn normalize_ip(&mut self)
        ensures
            *final(self) == (AnnounceRequest {
                ip_address: normalized_address(old(self).ip_address),
                ..*old(self)
            }),
    {
        if self.ip_address.is_none() {
            self.ip_address = Some(Ipv4Addr { octets: [0, 0, 0, 0] });
        }
    }
}

impl ScrapeRequest {
    /// Number of bytes of the request on the wire.
    pub open spec fn encoded_len(&self) -> nat {
        16 + 20 * self.info_hashes@.len()
    }
}

impl Request {
    /// Turns an announce that names no address into one that names the
    /// address `0.0.0.0`.
    pub fn normalize_ip(&mut self)
        ensures
            final(self)@ == normalized(old(self)@),
    {
        match self {
            Request::Announce(a) => {
                a.normalize_ip();
            },
            _ => {},
        }
    }

    /// Appends the bytes of the request to `buf`, unless they make more
    /// than a datagram may hold.
    pub fn write(&self, buf: &mut Vec<u8>) -> (r: Result<(), PacketTooLarge>)
        ensures
            r is Ok == (encoded_request(self@).len() <= MAX_PACKET_SIZE),
            r is Ok ==> final(buf)@ == old(buf)@ + encoded_request(self@),
            r is Err ==> final(buf)@ == old(buf)@,
    {
        match self {
            Request::Connect(r) => {
                put_u64(buf, PROTOCOL_IDENTIFIER);
                put_u32(buf, 0);
                put_u32(buf, r.transaction_id.0);
                assert(buf@ =~= old(buf)@ + encoded_connect(*r));
                proof {
                    lemma_encoded_connect_len(*r);
                }
                Ok(())
            },
            Request::Announce(r) => {
                put_u64(buf, r.connection_id.0);
                put_u32(buf, 1);
                put_u32(buf, r.transaction_id.0);
                put_bytes(buf, r.info_hash.0.as_slice());
                put_bytes(buf, r.peer_id.0.as_slice());
                put_u64(buf, r.bytes_downloaded.0);
                put_u64(buf, r.bytes_left.0);
                put_u64(buf, r.bytes_uploaded.0);
                put_event(buf, r.event);
                put_address(buf, &r.ip_address);
                put_u32(buf, r.key.0);
                put_i32(buf, r.peers_wanted);
                put_u16(buf, r.port.0);
                assert(buf@ =~= old(buf)@ + encoded_announce(*r));
                proof {
                    lemma_encoded_announce_len(*r);
                }
                Ok(())
            },
            Request::Scrape(r) => {
                if r.info_hashes.len() > (MAX_PACKET_SIZE - 16) / 20 {
                    proof {
                        lemma_encoded_scrape_len(r@);
                    }
                    return Err(PacketTooLarge);
                }
                put_u64(buf, r.connection_id.0);
                put_u32(buf, 2);
                put_u32(buf, r.transaction_id.0);
                put_hashes(buf, &r.info_hashes);
                assert(buf@ =~= old(buf)@ + encoded_scrape(r@));
                proof {
                    lemma_encoded_scrape_len(r@);
                }
                Ok(())
            },
        }
    }
}

pub proof fn lemma_encoded_announce_len(r: AnnounceRequest)
    ensures
        encoded_announce(r).len() == 98,
{
    lemma_u64_round_trip(r.connection_id.0);
    lemma_u64_round_trip(r.bytes_downloaded.0);
    lemma_u64_round_trip(r.bytes_left.0);
    lemma_u64_round_trip(r.bytes_uploaded.0);
    lemma_u32_round_trip(1);
    lemma_u32_round_trip(r.transaction_id.0);
    lemma_u32_round_trip(event_code(r.event));
    lemma_u32_round_trip(r.key.0);
    lemma_u32_round_trip(bits_of_i32(r.peers_wanted));
    lemma_u16_round_trip(r.port.0);
}

pub proof fn lemma_encoded_scrape_len(r: ScrapeRequestView)
    ensures
        encoded_scrape(r).len() == 16 + 20 * r.info_hashes.len(),
{
    lemma_u64_round_trip(r.connection_id.0);
    lemma_u32_round_trip(2);
    lemma_u32_round_trip(r.transaction_id.0);
}

pub proof fn lemma_encoded_connect_len(r: ConnectRequest)
    ensures
        encoded_connect(r).len() == 16,
{
    lemma_u64_round_trip(PROTOCOL_IDENTIFIER);
    lemma_u32_round_trip(0);
    lemma_u32_round_trip(r.transaction_id.0);
}

impl Request {
    /// The request that a datagram holds, or why it holds none.
    pub fn from_bytes(bytes: &[u8], max_scrape_torrents: u8) -> (r: Result<
        Request,
        RequestParseError,
    >)
        ensures
            request_outcome(r) == parsed_request(bytes@, max_scrape_torrents),
    {
        let len = bytes.len();
        if len < 16 {
            return Err(RequestParseError::Unsendable { reason: ParseFailure::TooShort });
        }
        let connection_id = ConnectionId(read_u64(bytes, 0));
        let action = read_u32(bytes, 8);
        let transaction_id = TransactionId(read_u32(bytes, 12));
        if action == 0 {
            if connection_id.0 == PROTOCOL_IDENTIFIER {
                Ok(Request::Connect(ConnectRequest { transaction_id }))
            } else {
                Err(
                    RequestParseError::Unsendable {
                        reason: ParseFailure::ProtocolIdentifierMissing,
                    },
                )
            }
        } else if action == 1 {
            if len < 98 {
                return Err(
                    RequestParseError::Sendable {
                        connection_id,
                        transaction_id,
                        reason: ParseFailure::TruncatedAnnounce,
                    },
                );
            }
            let info_hash = InfoHash(read_20(bytes, 16));
            let peer_id = PeerId(read_20(bytes, 36));
            let bytes_downloaded = NumberOfBytes(read_u64(bytes, 56));
            let bytes_left = NumberOfBytes(read_u64(bytes, 64));
            let bytes_uploaded = NumberOfBytes(read_u64(bytes, 72));
            let code = read_u32(bytes, 80);
            let event = if code == 1 {
                AnnounceEvent::Completed
            } else if code == 2 {
                AnnounceEvent::Started
            } else if code == 3 {
                AnnounceEvent::Stopped
            } else {
                AnnounceEvent::NoEvent
            };
            let ip_address = if bytes[84] == 0 && bytes[85] == 0 && bytes[86] == 0 && bytes[87]
                == 0 {
                None
            } else {
                Some(Ipv4Addr { octets: [bytes[84], bytes[85], bytes[86], bytes[87]] })
            };
            let key = PeerKey(read_u32(bytes, 88));
            let peers_wanted = read_i32(bytes, 92);
            let port = Port(read_u16(bytes, 96));
            proof {
                lemma_bytes20(info_hash.0);
                lemma_bytes20(peer_id.0);
                let b = bytes@.subrange(84, 88);
                assert(b[0] == bytes@[84] && b[1] == bytes@[85] && b[2] == bytes@[86] && b[3]
                    == bytes@[87]);
            }
            Ok(
                Request::Announce(
                    AnnounceRequest {
                        connection_id,
                        transaction_id,
                        info_hash,
                        peer_id,
                        bytes_downloaded,
                        bytes_left,
                        bytes_uploaded,
                        event,
                        ip_address,
                        key,
                        peers_wanted,
                        port,
                    },
                ),
            )
        } else if action == 2 {
            let whole = (len - 16) / 20;
            let count = if whole > max_scrape_torrents as usize {
                max_scrape_torrents as usize
            } else {
                whole
            };
            if count == 0 {
                return Err(
                    RequestParseError::Sendable {
                        connection_id,
                        transaction_id,
                        reason: ParseFailure::NoInfoHash,
                    },
                );
            }
            let mut info_hashes: Vec<InfoHash> = Vec::new();
            let mut i: usize = 0;
            while i < count
                invariant
                    i <= count,
                    len == bytes@.len(),
                    16 + 20 * count <= len,
                    info_hashes@ == Seq::new(i as nat, |k: int| parsed_hash(bytes@, k)),
                decreases count - i,
            {
                let hash = InfoHash(read_20(bytes, 16 + 20 * i));
                proof {
                    lemma_bytes20(hash.0);
                }
                info_hashes.push(hash);
                i += 1;
                assert(info_hashes@ =~= Seq::new(i as nat, |k: int| parsed_hash(bytes@, k)));
            }
            Ok(Request::Scrape(ScrapeRequest { connection_id, transaction_id, info_hashes }))
        } else {
            Err(
                RequestParseError::Sendable {
                    connection_id,
                    transaction_id,
                    reason: ParseFailure::InvalidAction,
                },
            )
        }
    }
}

/// Where each field of an announce request stands among its bytes.
pub proof fn lemma_encoded_announce_fields(r: AnnounceRequest)
    ensures
        ({
            let e = encoded_announce(r);
            &&& e.len() == 98
            &&& e.subrange(0, 8) == be_u64(r.connection_id.0)
            &&& e.subrange(8, 12) == be_u32(1)
            &&& e.subrange(12, 16) == be_u32(r.transaction_id.0)
            &&& e.subrange(16, 36) == r.info_hash.0@
            &&& e.subrange(36, 56) == r.peer_id.0@
            &&& e.subrange(56, 64) == be_u64(r.bytes_downloaded.0)
            &&& e.subrange(64, 72) == be_u64(r.bytes_left.0)
            &&& e.subrange(72, 80) == be_u64(r.bytes_uploaded.0)
            &&& e.subrange(80, 84) == be_u32(event_code(r.event))
            &&& e.subrange(84, 88) == address_code(r.ip_address)
            &&& e.subrange(88, 92) == be_u32(r.key.0)
            &&& e.subrange(92, 96) == be_u32(bits_of_i32(r.peers_wanted))
            &&& e.subrange(96, 98) == be_u16(r.port.0)
        }),
{
    lemma_encoded_announce_len(r);
    lemma_u64_round_trip(r.connection_id.0);
    lemma_u64_round_trip(r.bytes_downloaded.0);
    lemma_u64_round_trip(r.bytes_left.0);
    lemma_u64_round_trip(r.bytes_uploaded.0);
    lemma_u32_round_trip(1);
    lemma_u32_round_trip(r.transaction_id.0);
    lemma_u32_round_trip(event_code(r.event));
    lemma_u32_round_trip(r.key.0);
    lemma_u32_round_trip(bits_of_i32(r.peers_wanted));
    lemma_u16_round_trip(r.port.0);
    let e = encoded_announce(r);
    assert(e.subrange(0, 8) =~= be_u64(r.connection_id.0));
    assert(e.subrange(8, 12) =~= be_u32(1));
    assert(e.subrange(12, 16) =~= be_u32(r.transaction_id.0));
    assert(e.subrange(16, 36) =~= r.info_hash.0@);
    assert(e.subrange(36, 56) =~= r.peer_id.0@);
    assert(e.subrange(56, 64) =~= be_u64(r.bytes_downloaded.0));
    assert(e.subrange(64, 72) =~= be_u64(r.bytes_left.0));
    assert(e.subrange(72, 80) =~= be_u64(r.bytes_uploaded.0));
    assert(e.subrange(80, 84) =~= be_u32(event_code(r.event)));
    assert(e.subrange(84, 88) =~= address_code(r.ip_address));
    assert(e.subrange(88, 92) =~= be_u32(r.key.0));
    assert(e.subrange(92, 96) =~= be_u32(bits_of_i32(r.peers_wanted)));
    assert(e.subrange(96, 98) =~= be_u16(r.port.0));
}

/// An announce request is read back from its bytes as it was written; an
/// announce that names the address `0.0.0.0` is read back as one that
/// names none.
pub proof fn lemma_announce_round_trip(r: AnnounceRequest)
    ensures
        parsed_announce(encoded_announce(r)) == (AnnounceRequest {
            ip_address: address_of_code(address_code(r.ip_address)),
            ..r
        }),
        normalized_address(address_of_code(address_code(r.ip_address))) == normalized_address(
            r.ip_address,
        ),
{
    lemma_encoded_announce_fields(r);
    lemma_u64_round_trip(r.connection_id.0);
    lemma_u64_round_trip(r.bytes_downloaded.0);
    lemma_u64_round_trip(r.bytes_left.0);
    lemma_u64_round_trip(r.bytes_uploaded.0);
    lemma_u32_round_trip(r.transaction_id.0);
    lemma_u32_round_trip(event_code(r.event));
    lemma_u32_round_trip(r.key.0);
    lemma_u32_round_trip(bits_of_i32(r.peers_wanted));
    lemma_i32_round_trip(r.peers_wanted);
    lemma_u16_round_trip(r.port.0);
    lemma_bytes20(r.info_hash.0);
    lemma_bytes20(r.peer_id.0);
    match r.ip_address {
        Some(a) => {
            let back = address_of_code(address_code(r.ip_address));
            match back {
                Some(b) => {
                    assert(b.octets =~= a.octets);
                },
                None => {
                    assert(a.octets =~= [0u8, 0u8, 0u8, 0u8]);
                },
            }
        },
        None => {},
    }
}

/// Every request that can be written is read back from its bytes as it was
/// written, where an announce that names no address and one that names the
/// address `0.0.0.0` count as the same. A scrape request can be written
/// when it has an info hash and no more of them than are read.
pub proof fn lemma_request_round_trip(r: RequestView, max_scrape_torrents: u8)
    requires
        r matches RequestView::Scrape(s) ==> 1 <= s.info_hashes.len() <= max_scrape_torrents,
    ensures
        parsed_request(encoded_request(r), max_scrape_torrents) is Ok,
        normalized(parsed_request(encoded_request(r), max_scrape_torrents)->Ok_0) == normalized(r),
{
    match r {
        RequestView::Connect(c) => {
            lemma_encoded_connect_len(c);
            lemma_u64_round_trip(PROTOCOL_IDENTIFIER);
            lemma_u32_round_trip(0);
            lemma_u32_round_trip(c.transaction_id.0);
            let e = encoded_connect(c);
            assert(e.subrange(0, 8) =~= be_u64(PROTOCOL_IDENTIFIER));
            assert(e.subrange(8, 12) =~= be_u32(0));
            assert(e.subrange(12, 16) =~= be_u32(c.transaction_id.0));
        },
        RequestView::Announce(a) => {
            lemma_encoded_announce_fields(a);
            lemma_announce_round_trip(a);
            lemma_u32_round_trip(1);
        },
        RequestView::Scrape(s) => {
            lemma_encoded_scrape_len(s);
            lemma_u64_round_trip(s.connection_id.0);
            lemma_u32_round_trip(2);
            lemma_u32_round_trip(s.transaction_id.0);
            let e = encoded_scrape(s);
            let n = s.info_hashes.len();
            assert(e.subrange(0, 8) =~= be_u64(s.connection_id.0));
            assert(e.subrange(8, 12) =~= be_u32(2));
            assert(e.subrange(12, 16) =~= be_u32(s.transaction_id.0));
            assert(scrape_count(e.len(), max_scrape_torrents) == n);
            assert forall|i: int| 0 <= i < n implies parsed_hash(e, i) == s.info_hashes[i] by {
                let part = e.subrange(16 + 20 * i, 36 + 20 * i);
                assert forall|k: int| 0 <= k < 20 implies part[k] == s.info_hashes[i].0@[k] by {
                    assert(part[k] == encoded_hashes(s.info_hashes)[20 * i + k]);
                    assert((20 * i + k) / 20 == i);
                    assert((20 * i + k) % 20 == k);
                }
                assert(part =~= s.info_hashes[i].0@);
                lemma_bytes20(s.info_hashes[i].0);
            }
            assert(Seq::new(n, |i: int| parsed_hash(e, i)) =~= s.info_hashes);
        },
    }
}

} // verus!
