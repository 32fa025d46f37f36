//! Responses on the wire: how a response is written, and which response,
//! if any, a datagram holds.

use vstd::prelude::*;
use vstd::utf8::{decode_utf8, encode_utf8, valid_utf8};

use crate::common::{
    AnnounceInterval, ConnectionId, NumberOfDownloads, NumberOfPeers, Port, TransactionId,
    MAX_PACKET_SIZE,
};
use crate::net::{Ipv4Addr, Ipv6Addr};
use crate::protocol::request::PacketTooLarge;
use crate::protocol::types::{
    AnnounceResponse, ConnectResponse, ErrorResponse, Response, ResponsePeer, ScrapeResponse,
    TorrentScrapeStatistics,
};
use crate::protocol::wire::{
    be_u16, be_u32, be_u64, joined, lemma_joined_push, lemma_joined_record, lemma_u16_round_trip,
    lemma_u32_round_trip, lemma_u64_round_trip, put_bytes, put_u16, put_u32, put_u64, read_16,
    read_4, read_u16, read_u32, read_u64, u16_from_be, u32_from_be, u64_from_be,
};

verus! {

/// Length of what an announce response begins with.
pub const ANNOUNCE_RESPONSE_HEADER_LEN: usize = 20;

/// Length of an IPv4 peer in an announce response.
pub const PEER_IPV4_LEN: usize = 6;

/// Length of an IPv6 peer in an announce response.
pub const PEER_IPV6_LEN: usize = 18;

/// Length of the statistics of one torrent in a scrape response.
pub const STATISTICS_LEN: usize = 12;

/// Why a datagram holds no response.
#[derive(Clone, Copy, Debug, PartialEq, Eq, Structural)]
pub enum ResponseParseFailure {
    /// The datagram is shorter than any response of its action.
    TooShort,
    /// The message of an error response is no UTF-8 text.
    InvalidMessage,
    /// The action is none that a tracker answers with.
    InvalidAction,
}

/// An announce response with its peers as a sequence.
pub struct AnnounceResponseView<I> {
    pub transaction_id: TransactionId,
    pub announce_interval: AnnounceInterval,
    pub leechers: NumberOfPeers,
    pub seeders: NumberOfPeers,
    pub peers: Seq<ResponsePeer<I>>,
}

/// A scrape response with its statistics as a sequence.
pub struct ScrapeResponseView {
    pub transaction_id: TransactionId,
    pub torrent_stats: Seq<TorrentScrapeStatistics>,
}

/// An error response with its message as a sequence of characters.
pub struct ErrorResponseView {
    pub transaction_id: TransactionId,
    pub message: Seq<char>,
}

/// A response with its collections as sequences.
pub enum ResponseView {
    Connect(ConnectResponse),
    AnnounceIpv4(AnnounceResponseView<Ipv4Addr>),
    AnnounceIpv6(AnnounceResponseView<Ipv6Addr>),
    Scrape(ScrapeResponseView),
    Error(ErrorResponseView),
}

impl<I> View for AnnounceResponse<I> {
    type V = AnnounceResponseView<I>;

    open spec fn view(&self) -> AnnounceResponseView<I> {
        AnnounceResponseView {
            transaction_id: self.transaction_id,
            announce_interval: self.announce_interval,
            leechers: self.leechers,
            seeders: self.seeders,
            peers: self.peers@,
        }
    }
}

impl View for ScrapeResponse {
    type V = ScrapeResponseView;

    open spec fn view(&self) -> ScrapeResponseView {
        ScrapeResponseView {
            transaction_id: self.transaction_id,
            torrent_stats: self.torrent_stats@,
        }
    }
}

impl View for ErrorResponse {
    type V = ErrorResponseView;

    open spec fn view(&self) -> ErrorResponseView {
        ErrorResponseView { transaction_id: self.transaction_id, message: self.message@ }
    }
}

impl View for Response {
    type V = ResponseView;

    open spec fn view(&self) -> ResponseView {
        match *self {
            Response::Connect(r) => ResponseView::Connect(r),
            Response::AnnounceIpv4(r) => ResponseView::AnnounceIpv4(r@),
            Response::AnnounceIpv6(r) => ResponseView::AnnounceIpv6(r@),
            Response::Scrape(r) => ResponseView::Scrape(r@),
            Response::Error(r) => ResponseView::Error(r@),
        }
    }
}

/// The six bytes of an IPv4 peer: its address, then its port.
pub open spec fn peer4_record(p: ResponsePeer<Ipv4Addr>) -> Seq<u8> {
    p.ip_address.octets@ + be_u16(p.port.0)
}

/// The eighteen bytes of an IPv6 peer: its address, then its port.
pub open spec fn peer6_record(p: ResponsePeer<Ipv6Addr>) -> Seq<u8> {
    p.ip_address.octets@ + be_u16(p.port.0)
}

/// The twelve bytes of the statistics of one torrent: seeders, completed
/// downloads, leechers.
pub open spec fn stats_record(s: TorrentScrapeStatistics) -> Seq<u8> {
    be_u32(s.seeders.0) + be_u32(s.completed.0) + be_u32(s.leechers.0)
}

pub open spec fn peer4_records(peers: Seq<ResponsePeer<Ipv4Addr>>) -> Seq<Seq<u8>> {
    peers.map_values(|p: ResponsePeer<Ipv4Addr>| peer4_record(p))
}

pub open spec fn peer6_records(peers: Seq<ResponsePeer<Ipv6Addr>>) -> Seq<Seq<u8>> {
    peers.map_values(|p: ResponsePeer<Ipv6Addr>| peer6_record(p))
}

pub open spec fn stats_records(stats: Seq<TorrentScrapeStatistics>) -> Seq<Seq<u8>> {
    stats.map_values(|s: TorrentScrapeStatistics| stats_record(s))
}

/// What an announce response begins with.
pub open spec fn announce_header(
    transaction_id: TransactionId,
    announce_interval: AnnounceInterval,
    leechers: NumberOfPeers,
    seeders: NumberOfPeers,
) -> Seq<u8> {
    be_u32(1) + be_u32(transaction_id.0) + be_u32(announce_interval.0) + be_u32(leechers.0)
        + be_u32(seeders.0)
}

/// The bytes of a response on the wire.
pub open spec fn encoded_response(r: ResponseView) -> Seq<u8> {
    match r {
        ResponseView::Connect(c) => be_u32(0) + be_u32(c.transaction_id.0) + be_u64(
            c.connection_id.0,
        ),
        ResponseView::AnnounceIpv4(a) => announce_header(
            a.transaction_id,
            a.announce_interval,
            a.leechers,
            a.seeders,
        ) + joined(peer4_records(a.peers), 6),
        ResponseView::AnnounceIpv6(a) => announce_header(
            a.transaction_id,
            a.announce_interval,
            a.leechers,
            a.seeders,
        ) + joined(peer6_records(a.peers), 18),
        ResponseView::Scrape(s) => be_u32(2) + be_u32(s.transaction_id.0) + joined(
            stats_records(s.torrent_stats),
            12,
        ),
        ResponseView::Error(e) => be_u32(3) + be_u32(e.transaction_id.0) + encode_utf8(
            e.message,
        ),
    }
}

/// Number of bytes of a response on the wire.
pub open spec fn encoded_response_len(r: ResponseView) -> nat {
    match r {
        ResponseView::Connect(c) => 16,
        ResponseView::AnnounceIpv4(a) => 20 + 6 * a.peers.len(),
        ResponseView::AnnounceIpv6(a) => 20 + 18 * a.peers.len(),
        ResponseView::Scrape(s) => 8 + 12 * s.torrent_stats.len(),
        ResponseView::Error(e) => 8 + encode_utf8(e.message).len(),
    }
}

pub proof fn lemma_announce_header_len(
    transaction_id: TransactionId,
    announce_interval: AnnounceInterval,
    leechers: NumberOfPeers,
    seeders: NumberOfPeers,
)
    ensures
        announce_header(transaction_id, announce_interval, leechers, seeders).len() == 20,
{
    lemma_u32_round_trip(1);
    lemma_u32_round_trip(transaction_id.0);
    lemma_u32_round_trip(announce_interval.0);
    lemma_u32_round_trip(leechers.0);
    lemma_u32_round_trip(seeders.0);
}

pub proof fn lemma_record_lens()
    ensures
        forall|p: ResponsePeer<Ipv4Addr>| #[trigger] peer4_record(p).len() == 6,
        forall|p: ResponsePeer<Ipv6Addr>| #[trigger] peer6_record(p).len() == 18,
        forall|s: TorrentScrapeStatistics| #[trigger] stats_record(s).len() == 12,
{
    assert forall|p: ResponsePeer<Ipv4Addr>| #[trigger] peer4_record(p).len() == 6 by {
        lemma_u16_round_trip(p.port.0);
    }
    assert forall|p: ResponsePeer<Ipv6Addr>| #[trigger] peer6_record(p).len() == 18 by {
        lemma_u16_round_trip(p.port.0);
    }
    assert forall|s: TorrentScrapeStatistics| #[trigger] stats_record(s).len() == 12 by {
        lemma_u32_round_trip(s.seeders.0);
        lemma_u32_round_trip(s.completed.0);
        lemma_u32_round_trip(s.leechers.0);
    }
}

/// A response on the wire is as long as its kind and the number of its
/// entries say.
pub proof fn lemma_encoded_response_len(r: ResponseView)
    ensures
        encoded_response(r).len() == encoded_response_len(r),
{
    match r {
        ResponseView::Connect(c) => {
            lemma_u32_round_trip(0);
            lemma_u32_round_trip(c.transaction_id.0);
            lemma_u64_round_trip(c.connection_id.0);
        },
        ResponseView::AnnounceIpv4(a) => {
            lemma_announce_header_len(a.transaction_id, a.announce_interval, a.leechers, a.seeders);
        },
        ResponseView::AnnounceIpv6(a) => {
            lemma_announce_header_len(a.transaction_id, a.announce_interval, a.leechers, a.seeders);
        },
        ResponseView::Scrape(s) => {
            lemma_u32_round_trip(2);
            lemma_u32_round_trip(s.transaction_id.0);
        },
        ResponseView::Error(e) => {
            lemma_u32_round_trip(3);
            lemma_u32_round_trip(e.transaction_id.0);
        },
    }
}

/// An announce response with no more IPv6 peers than a valid configuration
/// hands out fits into one datagram.
pub proof fn lemma_announce_response_fits(a: AnnounceResponseView<Ipv6Addr>)
    requires
        a.peers.len() <= crate::config::MAX_RESPONSE_PEERS_LIMIT,
    ensures
        encoded_response(ResponseView::AnnounceIpv6(a)).len() <= MAX_PACKET_SIZE,
{
    lemma_encoded_response_len(ResponseView::AnnounceIpv6(a));
}

fn put_peers4(buf: &mut Vec<u8>, peers: &Vec<ResponsePeer<Ipv4Addr>>)
    ensures
        final(buf)@ == old(buf)@ + joined(peer4_records(peers@), 6),
{
    let mut i: usize = 0;
    assert(buf@ =~= old(buf)@ + joined(peer4_records(peers@.take(0)), 6));
    while i < peers.len()
        invariant
            i <= peers@.len(),
            buf@ == old(buf)@ + joined(peer4_records(peers@.take(i as int)), 6),
        decreases peers.len() - i,
    {
        let ghost mid = buf@;
        put_bytes(buf, peers[i].ip_address.octets.as_slice());
        put_u16(buf, peers[i].port.0);
        proof {
            let record = peer4_record(peers@[i as int]);
            lemma_u16_round_trip(peers@[i as int].port.0);
            lemma_joined_push(peer4_records(peers@.take(i as int)), record, 6);
            assert(peer4_records(peers@.take(i + 1)) =~= peer4_records(peers@.take(i as int)).push(
                record,
            ));
            assert(buf@ =~= mid + record);
        }
        i += 1;
    }
    assert(peers@.take(peers@.len() as int) =~= peers@);
}

fn put_peers6(buf: &mut Vec<u8>, peers: &Vec<ResponsePeer<Ipv6Addr>>)
    ensures
        final(buf)@ == old(buf)@ + joined(peer6_records(peers@), 18),
{
    let mut i: usize = 0;
    assert(buf@ =~= old(buf)@ + joined(peer6_records(peers@.take(0)), 18));
    while i < peers.len()
        invariant
            i <= peers@.len(),
            buf@ == old(buf)@ + joined(peer6_records(peers@.take(i as int)), 18),
        decreases peers.len() - i,
    {
        let ghost mid = buf@;
        put_bytes(buf, peers[i].ip_address.octets.as_slice());
        put_u16(buf, peers[i].port.0);
        proof {
            let record = peer6_record(peers@[i as int]);
            lemma_u16_round_trip(peers@[i as int].port.0);
            lemma_joined_push(peer6_records(peers@.take(i as int)), record, 18);
            assert(peer6_records(peers@.take(i + 1)) =~= peer6_records(peers@.take(i as int)).push(
                record,
            ));
            assert(buf@ =~= mid + record);
        }
        i += 1;
    }
    assert(peers@.take(peers@.len() as int) =~= peers@);
}

fn put_stats(buf: &mut Vec<u8>, stats: &Vec<TorrentScrapeStatistics>)
    ensures
        final(buf)@ == old(buf)@ + joined(stats_records(stats@), 12),
{
    let mut i: usize = 0;
    assert(buf@ =~= old(buf)@ + joined(stats_records(stats@.take(0)), 12));
    while i < stats.len()
        invariant
            i <= stats@.len(),
            buf@ == old(buf)@ + joined(stats_records(stats@.take(i as int)), 12),
        decreases stats.len() - i,
    {
        let ghost mid = buf@;
        put_u32(buf, stats[i].seeders.0);
        put_u32(buf, stats[i].completed.0);
        put_u32(buf, stats[i].leechers.0);
        proof {
            let record = stats_record(stats@[i as int]);
            lemma_record_lens();
            lemma_joined_push(stats_records(stats@.take(i as int)), record, 12);
            assert(stats_records(stats@.take(i + 1)) =~= stats_records(stats@.take(i as int)).push(
                record,
            ));
            assert(buf@ =~= mid + record);
        }
        i += 1;
    }
    assert(stats@.take(stats@.len() as int) =~= stats@);
}

fn put_announce_header(
    buf: &mut Vec<u8>,
    transaction_id: TransactionId,
    announce_interval: AnnounceInterval,
    leechers: NumberOfPeers,
    seeders: NumberOfPeers,
)
    ensures
        final(buf)@ == old(buf)@ + announce_header(
            transaction_id,
            announce_interval,
            leechers,
            seeders,
        ),
{
    put_u32(buf, 1);
    put_u32(buf, transaction_id.0);
    put_u32(buf, announce_interval.0);
    put_u32(buf, leechers.0);
    put_u32(buf, seeders.0);
    assert(buf@ =~= old(buf)@ + announce_header(
        transaction_id,
        announce_interval,
        leechers,
        seeders,
    ));
}

impl Response {
    /// Appends the bytes of the response to `buf`, unless they make more
    /// than a datagram may hold.
    pub fn write(&self, buf: &mut Vec<u8>) -> (r: Result<(), PacketTooLarge>)
        ensures
            r is Ok == (encoded_response(self@).len() <= MAX_PACKET_SIZE),
            r is Ok ==> final(buf)@ == old(buf)@ + encoded_response(self@),
            r is Err ==> final(buf)@ == old(buf)@,
    {
        proof {
            lemma_encoded_response_len(self@);
        }
        match self {
            Response::Connect(r) => {
                put_u32(buf, 0);
                put_u32(buf, r.transaction_id.0);
                put_u64(buf, r.connection_id.0);
                assert(buf@ =~= old(buf)@ + encoded_response(self@));
                Ok(())
            },
            Response::AnnounceIpv4(r) => {
                if r.peers.len() > (MAX_PACKET_SIZE - 20) / 6 {
                    return Err(PacketTooLarge);
                }
                put_announce_header(
                    buf,
                    r.transaction_id,
                    r.announce_interval,
                    r.leechers,
                    r.seeders,
                );
                put_peers4(buf, &r.peers);
                assert(buf@ =~= old(buf)@ + encoded_response(self@));
                Ok(())
            },
            Response::AnnounceIpv6(r) => {
                if r.peers.len() > (MAX_PACKET_SIZE - 20) / 18 {
                    return Err(PacketTooLarge);
                }
                put_announce_header(
                    buf,
                    r.transaction_id,
                    r.announce_interval,
                    r.leechers,
                    r.seeders,
                );
                put_peers6(buf, &r.peers);
                assert(buf@ =~= old(buf)@ + encoded_response(self@));
                Ok(())
            },
            Response::Scrape(r) => {
                if r.torrent_stats.len() > (MAX_PACKET_SIZE - 8) / 12 {
                    return Err(PacketTooLarge);
                }
                put_u32(buf, 2);
                put_u32(buf, r.transaction_id.0);
                put_stats(buf, &r.torrent_stats);
                assert(buf@ =~= old(buf)@ + encoded_response(self@));
                Ok(())
            },
            Response::Error(r) => {
                let message = r.message.as_str().as_bytes();
                if message.len() > MAX_PACKET_SIZE - 8 {
                    return Err(PacketTooLarge);
                }
                put_u32(buf, 3);
                put_u32(buf, r.transaction_id.0);
                put_bytes(buf, message);
                assert(buf@ =~= old(buf)@ + encoded_response(self@));
                Ok(())
            },
        }
    }
}

/// `String::from_utf8`: the text that the bytes spell, where they are
/// UTF-8, and nothing where they are not.
#[verifier::external_body]
fn text_from_utf8(bytes: Vec<u8>) -> (text: Option<String>)
    ensures
        text is Some == valid_utf8(bytes@),
        text matches Some(t) ==> t@ == decode_utf8(bytes@),
{
    match String::from_utf8(bytes) {
        Ok(t) => Some(t),
        Err(_) => None,
    }
}

/// Sixteen bytes as an address.
pub open spec fn bytes16(b: Seq<u8>) -> [u8; 16] {
    [
        b[0],
        b[1],
        b[2],
        b[3],
        b[4],
        b[5],
        b[6],
        b[7],
        b[8],
        b[9],
        b[10],
        b[11],
        b[12],
        b[13],
        b[14],
        b[15],
    ]
}

/// Four bytes as an address.
pub open spec fn bytes4(b: Seq<u8>) -> [u8; 4] {
    [b[0], b[1], b[2], b[3]]
}

/// The IPv4 peer that six bytes stand for.
pub open spec fn parsed_peer4(b: Seq<u8>) -> ResponsePeer<Ipv4Addr> {
    ResponsePeer {
        ip_address: Ipv4Addr { octets: bytes4(b.subrange(0, 4)) },
        port: Port(u16_from_be(b.subrange(4, 6))),
    }
}

/// The IPv6 peer that eighteen bytes stand for.
pub open spec fn parsed_peer6(b: Seq<u8>) -> ResponsePeer<Ipv6Addr> {
    ResponsePeer {
        ip_address: Ipv6Addr { octets: bytes16(b.subrange(0, 16)) },
        port: Port(u16_from_be(b.subrange(16, 18))),
    }
}

/// The statistics that twelve bytes stand for.
pub open spec fn parsed_stats(b: Seq<u8>) -> TorrentScrapeStatistics {
    TorrentScrapeStatistics {
        seeders: NumberOfPeers(u32_from_be(b.subrange(0, 4))),
        completed: NumberOfDownloads(u32_from_be(b.subrange(4, 8))),
        leechers: NumberOfPeers(u32_from_be(b.subrange(8, 12))),
    }
}

/// The record of `width` bytes at position `i` behind the first `skip`
/// bytes.
pub open spec fn record_at(b: Seq<u8>, skip: int, width: int, i: int) -> Seq<u8> {
    b.subrange(skip + width * i, skip + width * i + width)
}

/// The response that the datagram `b` holds, or why it holds none. An
/// announce response is read with IPv4 peers if `ipv4` is set, and with
/// IPv6 peers if not. Bytes at the end that make no whole entry are
/// ignored.
pub open spec fn parsed_response(b: Seq<u8>, ipv4: bool) -> Result<
    ResponseView,
    ResponseParseFailure,
> {
    if b.len() < 8 {
        Err(ResponseParseFailure::TooShort)
    } else {
        let action = u32_from_be(b.subrange(0, 4));
        let transaction_id = TransactionId(u32_from_be(b.subrange(4, 8)));
        if action == 0 {
            if b.len() < 16 {
                Err(ResponseParseFailure::TooShort)
            } else {
                Ok(
                    ResponseView::Connect(
                        ConnectResponse {
                            connection_id: ConnectionId(u64_from_be(b.subrange(8, 16))),
                            transaction_id,
                        },
                    ),
                )
            }
        } else if action == 1 {
            if b.len() < 20 {
                Err(ResponseParseFailure::TooShort)
            } else {
                let announce_interval = AnnounceInterval(u32_from_be(b.subrange(8, 12)));
                let leechers = NumberOfPeers(u32_from_be(b.subrange(12, 16)));
                let seeders = NumberOfPeers(u32_from_be(b.subrange(16, 20)));
                if ipv4 {
                    Ok(
                        ResponseView::AnnounceIpv4(
                            AnnounceResponseView {
                                transaction_id,
                                announce_interval,
                                leechers,
                                seeders,
                                peers: Seq::new(
                                    ((b.len() - 20) / 6) as nat,
                                    |i: int| parsed_peer4(record_at(b, 20, 6, i)),
                                ),
                            },
                        ),
                    )
                } else {
                    Ok(
                        ResponseView::AnnounceIpv6(
                            AnnounceResponseView {
                                transaction_id,
                                announce_interval,
                                leechers,
                                seeders,
                                peers: Seq::new(
                                    ((b.len() - 20) / 18) as nat,
                                    |i: int| parsed_peer6(record_at(b, 20, 18, i)),
                                ),
                            },
                        ),
                    )
                }
            }
        } else if action == 2 {
            Ok(
                ResponseView::Scrape(
                    ScrapeResponseView {
                        transaction_id,
                        torrent_stats: Seq::new(
                            ((b.len() - 8) / 12) as nat,
                            |i: int| parsed_stats(record_at(b, 8, 12, i)),
                        ),
                    },
                ),
            )
        } else if action == 3 {
            let message = b.subrange(8, b.len() as int);
            if valid_utf8(message) {
                Ok(
                    ResponseView::Error(
                        ErrorResponseView { transaction_id, message: decode_utf8(message) },
                    ),
                )
            } else {
                Err(ResponseParseFailure::InvalidMessage)
            }
        } else {
            Err(ResponseParseFailure::InvalidAction)
        }
    }
}

/// What `from_bytes` returned, with the response by its view.
pub open spec fn response_outcome(r: Result<Response, ResponseParseFailure>) -> Result<
    ResponseView,
    ResponseParseFailure,
> {
    match r {
        Ok(response) => Ok(response@),
        Err(e) => Err(e),
    }
}

fn read_peers4(bytes: &[u8]) -> (peers: Vec<ResponsePeer<Ipv4Addr>>)
    requires
        bytes@.len() >= 20,
    ensures
        peers@ == Seq::new(
            ((bytes@.len() - 20) / 6) as nat,
            |i: int| parsed_peer4(record_at(bytes@, 20, 6, i)),
        ),
{
    let len = bytes.len();
    let count = (len - 20) / 6;
    let mut peers: Vec<ResponsePeer<Ipv4Addr>> = Vec::new();
    let mut i: usize = 0;
    while i < count
        invariant
            i <= count,
            len == bytes@.len(),
            20 + 6 * count <= len,
            peers@ == Seq::new(i as nat, |k: int| parsed_peer4(record_at(bytes@, 20, 6, k))),
        decreases count - i,
    {
        let at = 20 + 6 * i;
        let octets = read_4(bytes, at);
        let port = Port(read_u16(bytes, at + 4));
        proof {
            let record = record_at(bytes@, 20, 6, i as int);
            assert(record.subrange(0, 4) =~= bytes@.subrange(at as int, at + 4));
            assert(record.subrange(4, 6) =~= bytes@.subrange(at + 4, at + 6));
            assert(octets =~= bytes4(record.subrange(0, 4)));
        }
        peers.push(ResponsePeer { ip_address: Ipv4Addr { octets }, port });
        i += 1;
        assert(peers@ =~= Seq::new(i as nat, |k: int| parsed_peer4(record_at(bytes@, 20, 6, k))));
    }
    peers
}

fn read_peers6(bytes: &[u8]) -> (peers: Vec<ResponsePeer<Ipv6Addr>>)
    requires
        bytes@.len() >= 20,
    ensures
        peers@ == Seq::new(
            ((bytes@.len() - 20) / 18) as nat,
            |i: int| parsed_peer6(record_at(bytes@, 20, 18, i)),
        ),
{
    let len = bytes.len();
    let count = (len - 20) / 18;
    let mut peers: Vec<ResponsePeer<Ipv6Addr>> = Vec::new();
    let mut i: usize = 0;
    while i < count
        invariant
            i <= count,
            len == bytes@.len(),
            20 + 18 * count <= len,
            peers@ == Seq::new(i as nat, |k: int| parsed_peer6(record_at(bytes@, 20, 18, k))),
        decreases count - i,
    {
        let at = 20 + 18 * i;
        let octets = read_16(bytes, at);
        let port = Port(read_u16(bytes, at + 16));
        proof {
            let record = record_at(bytes@, 20, 18, i as int);
            assert(record.subrange(0, 16) =~= bytes@.subrange(at as int, at + 16));
            assert(record.subrange(16, 18) =~= bytes@.subrange(at + 16, at + 18));
            assert(octets =~= bytes16(record.subrange(0, 16)));
        }
        peers.push(ResponsePeer { ip_address: Ipv6Addr { octets }, port });
        i += 1;
        assert(peers@ =~= Seq::new(i as nat, |k: int| parsed_peer6(record_at(bytes@, 20, 18, k))));
    }
    peers
}

fn read_stats(bytes: &[u8]) -> (stats: Vec<TorrentScrapeStatistics>)
    requires
        bytes@.len() >= 8,
    ensures
        stats@ == Seq::new(
            ((bytes@.len() - 8) / 12) as nat,
            |i: int| parsed_stats(record_at(bytes@, 8, 12, i)),
        ),
{
    let len = bytes.len();
    let count = (len - 8) / 12;
    let mut stats: Vec<TorrentScrapeStatistics> = Vec::new();
    let mut i: usize = 0;
    while i < count
        invariant
            i <= count,
            len == bytes@.len(),
            8 + 12 * count <= len,
            stats@ == Seq::new(i as nat, |k: int| parsed_stats(record_at(bytes@, 8, 12, k))),
        decreases count - i,
    {
        let at = 8 + 12 * i;
        let seeders = NumberOfPeers(read_u32(bytes, at));
        let completed = NumberOfDownloads(read_u32(bytes, at + 4));
        let leechers = NumberOfPeers(read_u32(bytes, at + 8));
        proof {
            let record = record_at(bytes@, 8, 12, i as int);
            assert(record.subrange(0, 4) =~= bytes@.subrange(at as int, at + 4));
            assert(record.subrange(4, 8) =~= bytes@.subrange(at + 4, at + 8));
            assert(record.subrange(8, 12) =~= bytes@.subrange(at + 8, at + 12));
        }
        stats.push(TorrentScrapeStatistics { seeders, completed, leechers });
        i += 1;
        assert(stats@ =~= Seq::new(i as nat, |k: int| parsed_stats(record_at(bytes@, 8, 12, k))));
    }
    stats
}

/// A copy of the bytes from `at` on.
fn tail(bytes: &[u8], at: usize) -> (r: Vec<u8>)
    requires
        at <= bytes@.len(),
    ensures
        r@ == bytes@.subrange(at as int, bytes@.len() as int),
{
    let mut r: Vec<u8> = Vec::new();
    let mut i: usize = at;
    while i < bytes.len()
        invariant
            at <= i <= bytes@.len(),
            r@ == bytes@.subrange(at as int, i as int),
        decreases bytes.len() - i,
    {
        r.push(bytes[i]);
        i += 1;
        assert(r@ =~= bytes@.subrange(at as int, i as int));
    }
    r
}

impl Response {
    /// The response that a datagram holds, or why it holds none.
    pub fn from_bytes(bytes: &[u8], ipv4: bool) -> (r: Result<Response, ResponseParseFailure>)
        ensures
            response_outcome(r) == parsed_response(bytes@, ipv4),
    {
        let len = bytes.len();
        if len < 8 {
            return Err(ResponseParseFailure::TooShort);
        }
        let action = read_u32(bytes, 0);
        let transaction_id = TransactionId(read_u32(bytes, 4));
        if action == 0 {
            if len < 16 {
                return Err(ResponseParseFailure::TooShort);
            }
            let connection_id = ConnectionId(read_u64(bytes, 8));
            Ok(Response::Connect(ConnectResponse { connection_id, transaction_id }))
        } else if action == 1 {
            if len < 20 {
                return Err(ResponseParseFailure::TooShort);
            }
            let announce_interval = AnnounceInterval(read_u32(bytes, 8));
            let leechers = NumberOfPeers(read_u32(bytes, 12));
            let seeders = NumberOfPeers(read_u32(bytes, 16));
            if ipv4 {
                let peers = read_peers4(bytes);
                Ok(
                    Response::AnnounceIpv4(
                        AnnounceResponse {
                            transaction_id,
                            announce_interval,
                            leechers,
                            seeders,
                            peers,
                        },
                    ),
                )
            } else {
                let peers = read_peers6(bytes);
                Ok(
                    Response::AnnounceIpv6(
                        AnnounceResponse {
                            transaction_id,
                            announce_interval,
                            leechers,
                            seeders,
                            peers,
                        },
                    ),
                )
            }
        } else if action == 2 {
            let torrent_stats = read_stats(bytes);
            Ok(Response::Scrape(ScrapeResponse { transaction_id, torrent_stats }))
        } else if action == 3 {
            match text_from_utf8(tail(bytes, 8)) {
                Some(message) => Ok(Response::Error(ErrorResponse { transaction_id, message })),
                None => Err(ResponseParseFailure::InvalidMessage),
            }
        } else {
            Err(ResponseParseFailure::InvalidAction)
        }
    }
}

/// Whether an announce response for this view is read with IPv4 peers.
pub open spec fn reads_as_ipv4(r: ResponseView) -> bool {
    r is AnnounceIpv4
}

/// Every response is read back from its bytes as it was written, when an
/// announce response is read with peers of the family it was written with.
pub proof fn lemma_response_round_trip(r: ResponseView, ipv4: bool)
    requires
        r is AnnounceIpv4 ==> ipv4,
        r is AnnounceIpv6 ==> !ipv4,
    ensures
        parsed_response(encoded_response(r), ipv4) == Ok::<ResponseView, ResponseParseFailure>(r),
{
    let e = encoded_response(r);
    lemma_encoded_response_len(r);
    lemma_record_lens();
    match r {
        ResponseView::Connect(c) => {
            lemma_u32_round_trip(0);
            lemma_u32_round_trip(c.transaction_id.0);
            lemma_u64_round_trip(c.connection_id.0);
            assert(e.subrange(0, 4) =~= be_u32(0));
            assert(e.subrange(4, 8) =~= be_u32(c.transaction_id.0));
            assert(e.subrange(8, 16) =~= be_u64(c.connection_id.0));
        },
        ResponseView::AnnounceIpv4(a) => {
            lemma_announce_header_fields(a.transaction_id, a.announce_interval, a.leechers, a.seeders);
            let head = announce_header(a.transaction_id, a.announce_interval, a.leechers, a.seeders);
            let records = peer4_records(a.peers);
            let body = joined(records, 6);
            assert(e.subrange(0, 4) =~= head.subrange(0, 4));
            assert(e.subrange(4, 8) =~= head.subrange(4, 8));
            assert(e.subrange(8, 12) =~= head.subrange(8, 12));
            assert(e.subrange(12, 16) =~= head.subrange(12, 16));
            assert(e.subrange(16, 20) =~= head.subrange(16, 20));
            let n = a.peers.len();
            assert((e.len() - 20) / 6 == n);
            assert forall|i: int| 0 <= i < n implies parsed_peer4(record_at(e, 20, 6, i))
                == a.peers[i] by {
                lemma_joined_record(records, 6, i);
                let record = record_at(e, 20, 6, i);
                assert(record =~= body.subrange(i * 6, (i + 1) * 6));
                assert(record == peer4_record(a.peers[i]));
                lemma_u16_round_trip(a.peers[i].port.0);
                assert(record.subrange(4, 6) =~= be_u16(a.peers[i].port.0));
                assert(bytes4(record.subrange(0, 4)) =~= a.peers[i].ip_address.octets);
            }
            assert(Seq::new(n, |i: int| parsed_peer4(record_at(e, 20, 6, i))) =~= a.peers);
        },
        ResponseView::AnnounceIpv6(a) => {
            lemma_announce_header_fields(a.transaction_id, a.announce_interval, a.leechers, a.seeders);
            let head = announce_header(a.transaction_id, a.announce_interval, a.leechers, a.seeders);
            let records = peer6_records(a.peers);
            let body = joined(records, 18);
            assert(e.subrange(0, 4) =~= head.subrange(0, 4));
            assert(e.subrange(4, 8) =~= head.subrange(4, 8));
            assert(e.subrange(8, 12) =~= head.subrange(8, 12));
            assert(e.subrange(12, 16) =~= head.subrange(12, 16));
            assert(e.subrange(16, 20) =~= head.subrange(16, 20));
            let n = a.peers.len();
            assert((e.len() - 20) / 18 == n);
            assert forall|i: int| 0 <= i < n implies parsed_peer6(record_at(e, 20, 18, i))
                == a.peers[i] by {
                lemma_joined_record(records, 18, i);
                let record = record_at(e, 20, 18, i);
                assert(record =~= body.subrange(i * 18, (i + 1) * 18));
                assert(record == peer6_record(a.peers[i]));
                lemma_u16_round_trip(a.peers[i].port.0);
                assert(record.subrange(16, 18) =~= be_u16(a.peers[i].port.0));
                assert(bytes16(record.subrange(0, 16)) =~= a.peers[i].ip_address.octets);
            }
            assert(Seq::new(n, |i: int| parsed_peer6(record_at(e, 20, 18, i))) =~= a.peers);
        },
        ResponseView::Scrape(s) => {
            lemma_u32_round_trip(2);
            lemma_u32_round_trip(s.transaction_id.0);
            let records = stats_records(s.torrent_stats);
            let body = joined(records, 12);
            assert(e.subrange(0, 4) =~= be_u32(2));
            assert(e.subrange(4, 8) =~= be_u32(s.transaction_id.0));
            let n = s.torrent_stats.len();
            assert((e.len() - 8) / 12 == n);
            assert forall|i: int| 0 <= i < n implies parsed_stats(record_at(e, 8, 12, i))
                == s.torrent_stats[i] by {
                lemma_joined_record(records, 12, i);
                let record = record_at(e, 8, 12, i);
                let stats = s.torrent_stats[i];
                assert(record =~= body.subrange(i * 12, (i + 1) * 12));
                assert(record == stats_record(stats));
                lemma_u32_round_trip(stats.seeders.0);
                lemma_u32_round_trip(stats.completed.0);
                lemma_u32_round_trip(stats.leechers.0);
                assert(record.subrange(0, 4) =~= be_u32(stats.seeders.0));
                assert(record.subrange(4, 8) =~= be_u32(stats.completed.0));
                assert(record.subrange(8, 12) =~= be_u32(stats.leechers.0));
            }
            assert(Seq::new(n, |i: int| parsed_stats(record_at(e, 8, 12, i)))
                =~= s.torrent_stats);
        },
        ResponseView::Error(m) => {
            lemma_u32_round_trip(3);
            lemma_u32_round_trip(m.transaction_id.0);
            assert(e.subrange(0, 4) =~= be_u32(3));
            assert(e.subrange(4, 8) =~= be_u32(m.transaction_id.0));
            assert(e.subrange(8, e.len() as int) =~= encode_utf8(m.message));
            vstd::utf8::encode_utf8_valid_utf8(m.message);
            vstd::utf8::encode_utf8_decode_utf8(m.message);
        },
    }
}

/// Where each field of the beginning of an announce response stands.
pub proof fn lemma_announce_header_fields(
    transaction_id: TransactionId,
    announce_interval: AnnounceInterval,
    leechers: NumberOfPeers,
    seeders: NumberOfPeers,
)
    ensures
        ({
            let head = announce_header(transaction_id, announce_interval, leechers, seeders);
            &&& head.len() == 20
            &&& u32_from_be(head.subrange(0, 4)) == 1
            &&& u32_from_be(head.subrange(4, 8)) == transaction_id.0
            &&& u32_from_be(head.subrange(8, 12)) == announce_interval.0
            &&& u32_from_be(head.subrange(12, 16)) == leechers.0
            &&& u32_from_be(head.subrange(16, 20)) == seeders.0
        }),
{
    let head = announce_header(transaction_id, announce_interval, leechers, seeders);
    lemma_u32_round_trip(1);
    lemma_u32_round_trip(transaction_id.0);
    lemma_u32_round_trip(announce_interval.0);
    lemma_u32_round_trip(leechers.0);
    lemma_u32_round_trip(seeders.0);
    assert(head.subrange(0, 4) =~= be_u32(1));
    assert(head.subrange(4, 8) =~= be_u32(transaction_id.0));
    assert(head.subrange(8, 12) =~= be_u32(announce_interval.0));
    assert(head.subrange(12, 16) =~= be_u32(leechers.0));
    assert(head.subrange(16, 20) =~= be_u32(seeders.0));
}

} // verus!
