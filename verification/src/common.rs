//! Value types shared by every part of the tracker.

use vstd::prelude::*;

verus! {

/// Largest datagram the tracker reads or writes.
pub const MAX_PACKET_SIZE: usize = 8192;

/// Size of the receive buffer of a socket worker.
pub const BUFFER_SIZE: usize = 8192;

/// Whether two 20-byte identifiers hold the same bytes.
pub fn bytes20_eq(a: &[u8; 20], b: &[u8; 20]) -> (r: bool)
    ensures
        r == (*a == *b),
{
    let mut i: usize = 0;
    while i < 20
        invariant
            i <= 20,
            forall|j: int| 0 <= j < i ==> a[j] == b[j],
        decreases 20 - i,
    {
        if a[i] != b[i] {
            return false;
        }
        i += 1;
    }
    assert(*a =~= *b);
    true
}

/// 20-byte identifier of a torrent.
#[derive(Clone, Copy, Debug, PartialEq, Eq, Hash)]
pub struct InfoHash(pub [u8; 20]);

impl InfoHash {
    /// Whether both identifiers hold the same bytes.
    pub fn same(&self, other: &InfoHash) -> (r: bool)
        ensures
            r == (*self == *other),
    {
        bytes20_eq(&self.0, &other.0)
    }
}

/// 20-byte identifier a client chose for itself.
#[derive(Clone, Copy, Debug, PartialEq, Eq, Hash)]
pub struct PeerId(pub [u8; 20]);

impl PeerId {
    /// Whether both identifiers hold the same bytes.
    pub fn same(&self, other: &PeerId) -> (r: bool)
        ensures
            r == (*self == *other),
    {
        bytes20_eq(&self.0, &other.0)
    }
}

/// Token a client must present with every announce and scrape.
#[derive(Clone, Copy, Debug, PartialEq, Eq, Hash, Structural)]
pub struct ConnectionId(pub u64);

/// Number a client picks for a request; the reply repeats it.
#[derive(Clone, Copy, Debug, PartialEq, Eq, Hash, Structural)]
pub struct TransactionId(pub u32);

/// UDP or TCP port of a peer.
#[derive(Clone, Copy, Debug, PartialEq, Eq, Hash, Structural)]
pub struct Port(pub u16);

/// A byte count reported by a client.
#[derive(Clone, Copy, Debug, PartialEq, Eq, Hash, Structural)]
pub struct NumberOfBytes(pub u64);

/// A peer count, as a request asks for it or a response reports it.
#[derive(Clone, Copy, Debug, PartialEq, Eq, Hash, Structural)]
pub struct NumberOfPeers(pub u32);

/// How often a torrent was downloaded to completion.
#[derive(Clone, Copy, Debug, PartialEq, Eq, Hash, Structural)]
pub struct NumberOfDownloads(pub u32);

/// Seconds a client should wait before it announces again.
#[derive(Clone, Copy, Debug, PartialEq, Eq, Hash, Structural)]
pub struct AnnounceInterval(pub u32);

/// Key by which a client is recognised after its address changed.
#[derive(Clone, Copy, Debug, PartialEq, Eq, Hash, Structural)]
pub struct PeerKey(pub u32);

/// What a client reports about itself in an announce.
#[derive(Clone, Copy, Debug, PartialEq, Eq, Hash, Structural)]
pub enum AnnounceEvent {
    /// The regular announce, with nothing to report.
    NoEvent,
    Completed,
    Started,
    Stopped,
}

/// What the tracker remembers about the progress of a peer.
#[derive(Clone, Copy, Debug, PartialEq, Eq, Hash, Structural)]
pub enum PeerStatus {
    Seeding,
    Leeching,
    Stopped,
}

impl PeerStatus {
    /// Status that an announce with this event and this many bytes left gives.
    pub open spec fn of(event: AnnounceEvent, bytes_left: NumberOfBytes) -> PeerStatus {
        if event == AnnounceEvent::Stopped {
            PeerStatus::Stopped
        } else if bytes_left.0 == 0 {
            PeerStatus::Seeding
        } else {
            PeerStatus::Leeching
        }
    }

    /// Determine peer status from announce event and number of bytes left.
    ///
    /// A stopped client is `Stopped` whatever it has left; otherwise a client
    /// with nothing left is `Seeding`, and any other is `Leeching`.
    pub fn from_event_and_bytes_left(event: AnnounceEvent, bytes_left: NumberOfBytes) -> (status:
        PeerStatus)
        ensures
            status == PeerStatus::of(event, bytes_left),
    {
        if event == AnnounceEvent::Stopped {
            PeerStatus::Stopped
        } else if bytes_left.0 == 0 {
            PeerStatus::Seeding
        } else {
            PeerStatus::Leeching
        }
    }
}

/// Point in time, in seconds on the tracker's monotonic clock, after which an
/// entry is stale.
#[derive(Clone, Copy, Debug, PartialEq, Eq, Hash, Structural)]
pub struct ValidUntil(pub u64);

impl ValidUntil {
    /// Deadline of an entry made at `now` that may live for `max_age` seconds.
    /// A deadline past the end of the clock stays at the end of the clock.
    pub open spec fn deadline(now: u64, max_age: u64) -> u64 {
        if now + max_age > u64::MAX {
            u64::MAX
        } else {
            (now + max_age) as u64
        }
    }

    pub fn new(now: u64, max_age: u64) -> (r: ValidUntil)
        ensures
            r.0 == ValidUntil::deadline(now, max_age),
            r.0 >= now,
    {
        if now > u64::MAX - max_age {
            ValidUntil(u64::MAX)
        } else {
            ValidUntil(now + max_age)
        }
    }

    /// Whether an entry with this deadline is still fresh at `now`.
    pub open spec fn is_live_at(self, now: u64) -> bool {
        self.0 > now
    }

    pub fn live_at(&self, now: u64) -> (r: bool)
        ensures
            r == self.is_live_at(now),
    {
        self.0 > now
    }
}

/// Index of a socket worker.
#[derive(Clone, Copy, Debug, PartialEq, Eq, Hash, Structural)]
pub struct SocketWorkerIndex(pub usize);

/// Index of a swarm worker, that is of a shard of the torrent map.
#[derive(Clone, Copy, Debug, PartialEq, Eq, Hash, Structural)]
pub struct SwarmWorkerIndex(pub usize);

/// Shard that owns `info_hash` when there are `swarm_workers` shards: the
/// first byte of the hash modulo the number of shards.
pub open spec fn shard_of(info_hash: InfoHash, swarm_workers: int) -> int {
    (info_hash.0[0] as int) % swarm_workers
}

impl SwarmWorkerIndex {
    /// The one swarm worker that owns `info_hash`.
    pub fn from_info_hash(config: &crate::config::Config, info_hash: InfoHash) -> (index: Self)
        requires
            config.swarm_workers > 0,
        ensures
            index.0 == shard_of(info_hash, config.swarm_workers as int),
            index.0 < config.swarm_workers,
    {
        let first: u8 = info_hash.0[0];
        SwarmWorkerIndex(first as usize % config.swarm_workers)
    }
}

} // verus!
