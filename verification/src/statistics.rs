//! Counters that the workers share with the thread that reports them.

use std::sync::atomic::AtomicUsize;
use std::sync::Arc;
use vstd::prelude::*;

use crate::access_list::AccessList;
use crate::net::Ip;
use crate::swarm::map::TorrentMap;
use crate::swarm::peers::lemma_counts_partition;
use crate::swarm::worker::TorrentMaps;

verus! {

/// What the workers count for one address family: totals since the last
/// report, and the torrents and peers of each swarm worker.
pub struct Statistics {
    pub requests_received: AtomicUsize,
    pub responses_sent_connect: AtomicUsize,
    pub responses_sent_announce: AtomicUsize,
    pub responses_sent_scrape: AtomicUsize,
    pub responses_sent_error: AtomicUsize,
    pub bytes_received: AtomicUsize,
    pub bytes_sent: AtomicUsize,
    pub torrents: Vec<AtomicUsize>,
    pub peers: Vec<AtomicUsize>,
}

impl Statistics {
    /// Counters at zero, with a torrent counter and a peer counter for each
    /// swarm worker.
    pub fn new(num_swarm_workers: usize) -> (statistics: Self)
        ensures
            statistics.torrents@.len() == num_swarm_workers,
            statistics.peers@.len() == num_swarm_workers,
    {
        Self {
            requests_received: AtomicUsize::new(0),
            responses_sent_connect: AtomicUsize::new(0),
            responses_sent_announce: AtomicUsize::new(0),
            responses_sent_scrape: AtomicUsize::new(0),
            responses_sent_error: AtomicUsize::new(0),
            bytes_received: AtomicUsize::new(0),
            bytes_sent: AtomicUsize::new(0),
            torrents: Self::create_atomic_usize_vec(num_swarm_workers),
            peers: Self::create_atomic_usize_vec(num_swarm_workers),
        }
    }

    fn create_atomic_usize_vec(len: usize) -> (counters: Vec<AtomicUsize>)
        ensures
            counters@.len() == len,
    {
        let mut counters: Vec<AtomicUsize> = Vec::new();
        let mut i: usize = 0;
        while i < len
            invariant
                i <= len,
                counters@.len() == i,
            decreases len - i,
        {
            counters.push(AtomicUsize::new(0));
            i += 1;
        }
        counters
    }
}

/// What all workers share.
#[derive(Clone)]
pub struct State {
    pub access_list: Arc<AccessList>,
    pub statistics_ipv4: Arc<Statistics>,
    pub statistics_ipv6: Arc<Statistics>,
}

impl State {
    /// An empty access list, and counters at zero for `num_swarm_workers`
    /// swarm workers.
    pub fn new(num_swarm_workers: usize) -> (state: Self)
        ensures
            state.access_list@ == Set::<crate::common::InfoHash>::empty(),
            state.statistics_ipv4.torrents@.len() == num_swarm_workers,
            state.statistics_ipv4.peers@.len() == num_swarm_workers,
            state.statistics_ipv6.torrents@.len() == num_swarm_workers,
            state.statistics_ipv6.peers@.len() == num_swarm_workers,
    {
        Self {
            access_list: Arc::new(AccessList::new()),
            statistics_ipv4: Arc::new(Statistics::new(num_swarm_workers)),
            statistics_ipv6: Arc::new(Statistics::new(num_swarm_workers)),
        }
    }
}

/// Number of peers of each torrent of `s`.
pub open spec fn peer_counts<I: Ip>(s: Seq<crate::swarm::map::TorrentEntry<I>>) -> Seq<u64> {
    Seq::new(s.len(), |i: int| s[i].data@.len() as u64)
}

impl<I: Ip> TorrentMap<I> {
    /// Appends the number of peers of each torrent, which is the number of
    /// its seeders and leechers together.
    pub fn peers_per_torrent(&self, counts: &mut Vec<u64>)
        requires
            self.wf(),
        ensures
            final(counts)@ == old(counts)@ + peer_counts(self.entries@),
    {
        let mut i: usize = 0;
        assert(counts@ =~= old(counts)@ + peer_counts(self.entries@.take(0)));
        while i < self.entries.len()
            invariant
                i <= self.entries@.len(),
                self.wf(),
                counts@ == old(counts)@ + peer_counts(self.entries@.take(i as int)),
            decreases self.entries.len() - i,
        {
            let data = &self.entries[i].data;
            proof {
                assert(self.entries@[i as int].data.wf());
                lemma_counts_partition(data@);
            }
            let peers = data.peers.len();
            let num_peers = (data.num_seeders + data.num_leechers) as u64;
            counts.push(num_peers);
            i += 1;
            assert(counts@ =~= old(counts)@ + peer_counts(self.entries@.take(i as int)));
        }
        assert(self.entries@.take(self.entries@.len() as int) =~= self.entries@);
    }
}

impl TorrentMaps {
    /// Number of peers of each torrent: of the IPv4 torrents first, then of
    /// the IPv6 torrents.
    pub fn peers_per_torrent(&self) -> (counts: Vec<u64>)
        requires
            self.wf(),
        ensures
            counts@ == peer_counts(self.ipv4.entries@) + peer_counts(self.ipv6.entries@),
    {
        let mut counts: Vec<u64> = Vec::new();
        self.ipv4.peers_per_torrent(&mut counts);
        self.ipv6.peers_per_torrent(&mut counts);
        counts
    }
}

/// Number of peers of all torrents of `s` together.
pub open spec fn total_peers<I: Ip>(s: Seq<crate::swarm::map::TorrentEntry<I>>) -> nat
    decreases s.len(),
{
    if s.len() == 0 {
        0
    } else {
        total_peers(s.drop_last()) + s.last().data@.len()
    }
}

/// A count as a counter holds it: a count too large for the counter is held
/// as the largest number the counter holds.
pub open spec fn counted(n: nat) -> usize {
    if n > usize::MAX {
        usize::MAX
    } else {
        n as usize
    }
}

impl<I: Ip> TorrentMap<I> {
    /// Number of peers of all torrents together.
    pub fn num_peers(&self) -> (n: usize)
        requires
            self.wf(),
        ensures
            n == counted(total_peers(self.entries@)),
    {
        let mut n: usize = 0;
        let mut i: usize = 0;
        assert(self.entries@.take(0) =~= Seq::<crate::swarm::map::TorrentEntry<I>>::empty());
        while i < self.entries.len()
            invariant
                i <= self.entries@.len(),
                n == counted(total_peers(self.entries@.take(i as int))),
            decreases self.entries.len() - i,
        {
            let peers = self.entries[i].data.peers.len();
            proof {
                let next = self.entries@.take(i + 1);
                assert(next.drop_last() =~= self.entries@.take(i as int));
                assert(next.last() == self.entries@[i as int]);
            }
            n = if peers > usize::MAX - n {
                usize::MAX
            } else {
                n + peers
            };
            i += 1;
        }
        assert(self.entries@.take(self.entries@.len() as int) =~= self.entries@);
        n
    }
}

} // verus!
