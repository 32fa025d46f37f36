//! The torrents of one shard.

use vstd::prelude::*;

use crate::access_list::{allowed, AccessList};
use crate::common::{InfoHash, NumberOfDownloads, NumberOfPeers, PeerId, PeerStatus};
use crate::config::AccessListMode;
use crate::net::Ip;
use crate::protocol::types::{no_statistics, TorrentScrapeStatistics};
use crate::seq_util::{lemma_filter_empty, lemma_filter_step, shrink_to_fit};
use crate::swarm::peers::{count_status, Peer, PeerEntry};
use crate::swarm::torrent::{live_peers, peers_after_announce, TorrentData};

verus! {

/// A torrent under its info hash.
#[derive(Debug)]
pub struct TorrentEntry<I: Ip> {
    pub info_hash: InfoHash,
    pub data: TorrentData<I>,
}

/// Whether some entry of `s` has the info hash `h`.
pub open spec fn has_torrent<I: Ip>(s: Seq<TorrentEntry<I>>, h: InfoHash) -> bool {
    exists|i: int| 0 <= i < s.len() && (#[trigger] s[i]).info_hash == h
}

/// Position of the entry with the info hash `h`, where there is one.
pub open spec fn torrent_index<I: Ip>(s: Seq<TorrentEntry<I>>, h: InfoHash) -> int {
    choose|i: int| 0 <= i < s.len() && (#[trigger] s[i]).info_hash == h
}

/// No info hash occurs twice.
pub open spec fn distinct_hashes<I: Ip>(s: Seq<TorrentEntry<I>>) -> bool {
    forall|i: int, j: int|
        0 <= i < j < s.len() ==> (#[trigger] s[i]).info_hash != (#[trigger] s[j]).info_hash
}

/// With distinct info hashes, a torrent is found at one place only.
pub proof fn lemma_torrent_index_unique<I: Ip>(s: Seq<TorrentEntry<I>>, h: InfoHash, i: int)
    requires
        distinct_hashes(s),
        0 <= i < s.len(),
        s[i].info_hash == h,
    ensures
        has_torrent(s, h),
        torrent_index(s, h) == i,
{
    let j = torrent_index(s, h);
    assert(0 <= j < s.len() && s[j].info_hash == h);
    if j < i {
        assert(s[j].info_hash != s[i].info_hash);
    } else if i < j {
        assert(s[i].info_hash != s[j].info_hash);
    }
}

/// With distinct info hashes, there are as many torrents as entries.
pub proof fn lemma_number_of_torrents<I: Ip>(s: Seq<TorrentEntry<I>>)
    requires
        distinct_hashes(s),
    ensures
        torrents_of(s).dom().finite(),
        torrents_of(s).dom().len() == s.len(),
    decreases s.len(),
{
    if s.len() == 0 {
        assert(torrents_of(s).dom() =~= Set::<InfoHash>::empty());
    } else {
        let rest = s.drop_last();
        let last = s.last().info_hash;
        assert forall|i: int, j: int| 0 <= i < j < rest.len() implies (#[trigger] rest[i]).info_hash
            != (#[trigger] rest[j]).info_hash by {
            assert(s[i].info_hash != s[j].info_hash);
        }
        lemma_number_of_torrents(rest);
        assert forall|h: InfoHash| torrents_of(s).dom().contains(h) == torrents_of(
            rest,
        ).dom().insert(last).contains(h) by {
            if has_torrent(s, h) {
                let i = torrent_index(s, h);
                if i < rest.len() {
                    assert(rest[i].info_hash == h);
                }
            }
            if has_torrent(rest, h) {
                let i = torrent_index(rest, h);
                assert(s[i].info_hash == h);
            }
            if h == last {
                assert(s[s.len() - 1].info_hash == h);
            }
        }
        assert(torrents_of(s).dom() =~= torrents_of(rest).dom().insert(last));
        if has_torrent(rest, last) {
            let i = torrent_index(rest, last);
            assert(s[i].info_hash != s[s.len() - 1].info_hash);
        }
    }
}

/// The torrents of one shard, each with its peers.
#[derive(Debug)]
pub struct TorrentMap<I: Ip> {
    pub entries: Vec<TorrentEntry<I>>,
}

/// The torrents as a map from info hash to peers.
pub open spec fn torrents_of<I: Ip>(s: Seq<TorrentEntry<I>>) -> Map<InfoHash, Seq<PeerEntry<I>>> {
    Map::new(|h: InfoHash| has_torrent(s, h), |h: InfoHash| s[torrent_index(s, h)].data@)
}

impl<I: Ip> View for TorrentMap<I> {
    type V = Map<InfoHash, Seq<PeerEntry<I>>>;

    open spec fn view(&self) -> Map<InfoHash, Seq<PeerEntry<I>>> {
        torrents_of(self.entries@)
    }
}

/// The info hashes of the torrents, in the order in which the tracker got
/// to know them.
pub open spec fn info_hashes<I: Ip>(s: Seq<TorrentEntry<I>>) -> Seq<InfoHash> {
    s.map_values(|e: TorrentEntry<I>| e.info_hash)
}

/// The order of the torrents after an announce for the torrent `h`: a
/// torrent that the tracker gets to know by the announce goes to the end,
/// and every other torrent stays in its place.
pub open spec fn order_after_announce<I: Ip>(
    order: Seq<InfoHash>,
    m: Map<InfoHash, Seq<PeerEntry<I>>>,
    h: InfoHash,
) -> Seq<InfoHash> {
    if m.dom().contains(h) {
        order
    } else {
        order.push(h)
    }
}

/// Whether a cleaning pass at `now` keeps a torrent.
pub open spec fn stays<I: Ip>(
    m: Map<InfoHash, Seq<PeerEntry<I>>>,
    listed: Set<InfoHash>,
    mode: AccessListMode,
    now: u64,
) -> spec_fn(InfoHash) -> bool {
    |h: InfoHash| cleaned(m, listed, mode, now).dom().contains(h)
}

/// The peers of the torrent `h`; none where the tracker does not know it.
pub open spec fn peers_of<I: Ip>(m: Map<InfoHash, Seq<PeerEntry<I>>>, h: InfoHash) -> Seq<
    PeerEntry<I>,
> {
    if m.dom().contains(h) {
        m[h]
    } else {
        Seq::empty()
    }
}

/// A count as a response reports it: numbers too large for the field are
/// reported as the largest number the field holds.
pub open spec fn reported(n: nat) -> NumberOfPeers {
    if n > u32::MAX {
        NumberOfPeers(u32::MAX)
    } else {
        NumberOfPeers(n as u32)
    }
}

/// What a scrape reports of the torrent `h`: its seeders and leechers, and
/// no completed downloads, which the tracker does not count.
pub open spec fn scrape_statistics<I: Ip>(
    m: Map<InfoHash, Seq<PeerEntry<I>>>,
    h: InfoHash,
) -> TorrentScrapeStatistics {
    if m.dom().contains(h) {
        TorrentScrapeStatistics {
            seeders: reported(count_status(m[h], PeerStatus::Seeding)),
            completed: NumberOfDownloads(0),
            leechers: reported(count_status(m[h], PeerStatus::Leeching)),
        }
    } else {
        no_statistics()
    }
}

/// The torrents that a cleaning pass at `now` keeps: those that the access
/// list still allows and that have a peer left, each with its fresh peers.
pub open spec fn cleaned<I: Ip>(
    m: Map<InfoHash, Seq<PeerEntry<I>>>,
    listed: Set<InfoHash>,
    mode: AccessListMode,
    now: u64,
) -> Map<InfoHash, Seq<PeerEntry<I>>> {
    Map::new(
        |h: InfoHash|
            m.dom().contains(h) && allowed(listed, mode, h) && live_peers(m[h], now).len() > 0,
        |h: InfoHash| live_peers(m[h], now),
    )
}

/// A count that fits the field of a response.
pub fn report(n: usize) -> (r: NumberOfPeers)
    ensures
        r == reported(n as nat),
{
    if n > 0xffff_ffff {
        NumberOfPeers(0xffff_ffff)
    } else {
        NumberOfPeers(n as u32)
    }
}

impl<I: Ip> TorrentMap<I> {
    /// No info hash occurs twice, and every torrent is well formed.
    pub open spec fn wf(&self) -> bool {
        &&& distinct_hashes(self.entries@)
        &&& forall|i: int| 0 <= i < self.entries@.len() ==> (#[trigger] self.entries@[i]).data.wf()
    }

    /// The info hashes of the torrents, in the order in which the tracker
    /// got to know them.
    pub open spec fn order(&self) -> Seq<InfoHash> {
        info_hashes(self.entries@)
    }

    pub fn new() -> (m: TorrentMap<I>)
        ensures
            m@ == Map::<InfoHash, Seq<PeerEntry<I>>>::empty(),
            m.order() == Seq::<InfoHash>::empty(),
            m.wf(),
    {
        let m = TorrentMap { entries: Vec::new() };
        assert(m@ =~= Map::<InfoHash, Seq<PeerEntry<I>>>::empty());
        m
    }

    /// Number of torrents.
    pub fn len(&self) -> (n: usize)
        requires
            self.wf(),
        ensures
            n == self.entries@.len(),
            n == self@.dom().len(),
            self@.dom().finite(),
    {
        proof {
            lemma_number_of_torrents(self.entries@);
        }
        self.entries.len()
    }

    /// Position of the torrent `info_hash`.
    pub fn find(&self, info_hash: &InfoHash) -> (r: Option<usize>)
        requires
            self.wf(),
        ensures
            r is Some == self@.dom().contains(*info_hash),
            r matches Some(i) ==> i < self.entries@.len() && i == torrent_index(
                self.entries@,
                *info_hash,
            ) && self.entries@[i as int].info_hash == *info_hash && self.entries@[i as int].data@
                == self@[*info_hash],
    {
        let mut i: usize = 0;
        while i < self.entries.len()
            invariant
                i <= self.entries.len(),
                self.wf(),
                forall|j: int| 0 <= j < i ==> (#[trigger] self.entries@[j]).info_hash != *info_hash,
            decreases self.entries.len() - i,
        {
            if self.entries[i].info_hash.same(info_hash) {
                proof {
                    lemma_torrent_index_unique(self.entries@, *info_hash, i as int);
                }
                return Some(i);
            }
            i += 1;
        }
        None
    }

    /// The torrent `info_hash`, where the tracker knows it.
    pub fn get(&self, info_hash: &InfoHash) -> (r: Option<&TorrentData<I>>)
        requires
            self.wf(),
        ensures
            r is Some == self@.dom().contains(*info_hash),
            r matches Some(data) ==> data@ == self@[*info_hash] && data.wf(),
    {
        match self.find(info_hash) {
            Some(i) => {
                assert(self.entries@[i as int].data.wf());
                Some(&self.entries[i].data)
            },
            None => None,
        }
    }

    /// Whether the tracker knows the torrent `info_hash`.
    pub fn contains_key(&self, info_hash: &InfoHash) -> (r: bool)
        requires
            self.wf(),
        ensures
            r == self@.dom().contains(*info_hash),
    {
        self.find(info_hash).is_some()
    }

    /// Seeders and leechers of the torrent `info_hash`; zeros where the
    /// tracker does not know it.
    pub fn statistics(&self, info_hash: &InfoHash) -> (r: TorrentScrapeStatistics)
        requires
            self.wf(),
        ensures
            r == scrape_statistics(self@, *info_hash),
    {
        match self.find(info_hash) {
            Some(i) => {
                assert(self.entries@[i as int].data.wf());
                TorrentScrapeStatistics {
                    seeders: report(self.entries[i].data.num_seeders),
                    completed: NumberOfDownloads(0),
                    leechers: report(self.entries[i].data.num_leechers),
                }
            },
            None => TorrentScrapeStatistics {
                seeders: NumberOfPeers(0),
                completed: NumberOfDownloads(0),
                leechers: NumberOfPeers(0),
            },
        }
    }

    /// Records an announce of the peer `peer_id` for the torrent
    /// `info_hash`, which the tracker gets to know by it: a new torrent
    /// goes to the end, and every other torrent stays in its place. Returns
    /// the position of the torrent.
    pub fn announce(&mut self, info_hash: InfoHash, peer_id: PeerId, peer: Peer<I>) -> (index:
        usize)
        requires
            old(self).wf(),
        ensures
            final(self).wf(),
            final(self)@ == old(self)@.insert(
                info_hash,
                peers_after_announce(peers_of(old(self)@, info_hash), peer_id, peer),
            ),
            final(self).order() == order_after_announce(old(self).order(), old(self)@, info_hash),
            index < final(self).entries@.len(),
            final(self).entries@[index as int].info_hash == info_hash,
            final(self).entries@[index as int].data@ == final(self)@[info_hash],
    {
        let ghost before = self.entries@;
        let index = match self.find(&info_hash) {
            Some(i) => i,
            None => {
                self.entries.push(TorrentEntry { info_hash, data: TorrentData::default() });
                self.entries.len() - 1
            },
        };
        let ghost mid = self.entries@;
        proof {
            assert forall|a: int, b: int| 0 <= a < b < mid.len() implies (#[trigger] mid[a]).info_hash
                != (#[trigger] mid[b]).info_hash by {
                if b < before.len() {
                    assert(before[a].info_hash != before[b].info_hash);
                } else {
                    assert(before[a].info_hash != info_hash);
                }
            }
            assert forall|a: int| 0 <= a < mid.len() implies (#[trigger] mid[a]).data.wf() by {
                if a < before.len() {
                    assert(before[a].data.wf());
                }
            }
            assert(mid[index as int].data@ == peers_of(old(self)@, info_hash));
        }
        self.entries[index].data.update_peer(peer_id, peer);
        proof {
            let after = self.entries@;
            assert(after.len() == mid.len());
            assert forall|a: int| 0 <= a < after.len() implies (#[trigger] after[a]).info_hash
                == mid[a].info_hash by {}
            assert forall|a: int, b: int| 0 <= a < b < after.len() implies (
            #[trigger] after[a]).info_hash != (#[trigger] after[b]).info_hash by {
                assert(mid[a].info_hash != mid[b].info_hash);
            }
            assert forall|a: int| 0 <= a < after.len() implies (#[trigger] after[a]).data.wf() by {
                if a != index {
                    assert(mid[a].data.wf());
                }
            }
            lemma_torrent_index_unique(after, info_hash, index as int);
            assert(info_hashes(after) =~= info_hashes(mid));
            assert(info_hashes(mid) =~= if old(self)@.dom().contains(info_hash) {
                info_hashes(before)
            } else {
                info_hashes(before).push(info_hash)
            });
            let target = old(self)@.insert(
                info_hash,
                peers_after_announce(peers_of(old(self)@, info_hash), peer_id, peer),
            );
            assert forall|h: InfoHash| self@.dom().contains(h) == target.dom().contains(h) by {
                if has_torrent(after, h) {
                    let a = torrent_index(after, h);
                    if a < before.len() && h != info_hash {
                        assert(before[a].info_hash == h);
                    }
                }
                if has_torrent(before, h) {
                    let a = torrent_index(before, h);
                    assert(after[a].info_hash == h);
                }
            }
            assert forall|h: InfoHash| self@.dom().contains(h) implies self@[h] == target[h] by {
                let a = torrent_index(after, h);
                if h != info_hash {
                    assert(a != index);
                    assert(a < before.len());
                    assert(before[a].info_hash == h);
                    lemma_torrent_index_unique(before, h, a);
                    assert(after[a].data == mid[a].data);
                }
            }
            assert(self@ =~= target);
        }
        index
    }
}

impl<I: Ip> TorrentMap<I> {
    /// Removes stale peers, then the torrents that are left without a peer
    /// and those that the access list no longer allows. The torrents that
    /// stay keep their order.
    pub fn clean(&mut self, access_list: &AccessList, mode: AccessListMode, now: u64)
        requires
            old(self).wf(),
        ensures
            final(self).wf(),
            final(self)@ == cleaned(old(self)@, access_list@, mode, now),
            final(self).order() == old(self).order().filter(
                stays(old(self)@, access_list@, mode, now),
            ),
    {
        let ghost before = self.entries@;
        let ghost pred = stays(self@, access_list@, mode, now);
        proof {
            lemma_filter_empty(pred);
            assert(info_hashes(before).take(0) =~= Seq::<InfoHash>::empty());
        }
        let mut taken: Vec<TorrentEntry<I>> = Vec::new();
        core::mem::swap(&mut self.entries, &mut taken);
        let mut kept: Vec<TorrentEntry<I>> = Vec::new();
        let ghost mut origin: Seq<int> = Seq::empty();
        for entry in it: taken
            invariant
                it.seq() == before,
                pred == stays(torrents_of(before), access_list@, mode, now),
                info_hashes(kept@) == info_hashes(before).take(it.index() as int).filter(pred),
                distinct_hashes(before),
                forall|a: int| 0 <= a < before.len() ==> (#[trigger] before[a]).data.wf(),
                origin.len() == kept@.len(),
                forall|a: int|
                    0 <= a < kept@.len() ==> {
                        &&& 0 <= #[trigger] origin[a] < it.index()
                        &&& kept@[a].info_hash == before[origin[a]].info_hash
                        &&& kept@[a].data@ == live_peers(before[origin[a]].data@, now)
                        &&& kept@[a].data@.len() > 0
                        &&& kept@[a].data.wf()
                        &&& allowed(access_list@, mode, kept@[a].info_hash)
                    },
                forall|a: int, b: int|
                    0 <= a < b < kept@.len() ==> #[trigger] origin[a] < #[trigger] origin[b],
                forall|j: int|
                    0 <= j < it.index() && allowed(access_list@, mode, (#[trigger] before[j]).info_hash)
                        && live_peers(before[j].data@, now).len() > 0 ==> exists|a: int|
                        0 <= a < kept@.len() && #[trigger] origin[a] == j,
        {
            let ghost j = it.index() as int;
            let mut entry = entry;
            assert(entry == before[j]);
            assert(before[j].data.wf());
            let ghost kept_before = kept@;
            proof {
                lemma_torrent_index_unique(before, before[j].info_hash, j);
                lemma_filter_step(info_hashes(before), pred, j);
                assert(pred(info_hashes(before)[j]) == (allowed(
                    access_list@,
                    mode,
                    before[j].info_hash,
                ) && live_peers(before[j].data@, now).len() > 0));
            }
            if access_list.allows(mode, &entry.info_hash) {
                if entry.data.clean(now) {
                    kept.push(entry);
                    proof {
                        assert(info_hashes(kept@) =~= info_hashes(kept_before).push(
                            before[j].info_hash,
                        ));
                        let ghost old_origin = origin;
                        origin = origin.push(j);
                        assert forall|a: int| 0 <= a < kept@.len() implies {
                            &&& 0 <= #[trigger] origin[a] <= j
                            &&& kept@[a].info_hash == before[origin[a]].info_hash
                            &&& kept@[a].data@ == live_peers(before[origin[a]].data@, now)
                            &&& kept@[a].data@.len() > 0
                            &&& kept@[a].data.wf()
                            &&& allowed(access_list@, mode, kept@[a].info_hash)
                        } by {
                            if a < old_origin.len() {
                                assert(origin[a] == old_origin[a]);
                            }
                        }
                        assert forall|a: int, b: int| 0 <= a < b < kept@.len() implies
                            #[trigger] origin[a] < #[trigger] origin[b] by {
                            assert(origin[a] == old_origin[a]);
                            if b < old_origin.len() {
                                assert(origin[b] == old_origin[b]);
                            }
                        }
                        assert forall|i: int|
                            0 <= i <= j && allowed(access_list@, mode, (#[trigger] before[i]).info_hash)
                                && live_peers(before[i].data@, now).len() > 0 implies exists|a: int|
                            0 <= a < kept@.len() && #[trigger] origin[a] == i by {
                            if i < j {
                                let a = choose|a: int|
                                    0 <= a < old_origin.len() && #[trigger] old_origin[a] == i;
                                assert(origin[a] == i);
                            } else {
                                assert(origin[kept@.len() - 1] == j);
                            }
                        }
                    }
                }
            }
        }
        shrink_to_fit(&mut kept);
        self.entries = kept;
        proof {
            assert(info_hashes(before).take(before.len() as int) =~= info_hashes(before));
            let after = self.entries@;
            let target = cleaned(old(self)@, access_list@, mode, now);
            assert forall|a: int| 0 <= a < after.len() implies (#[trigger] after[a]).data.wf() by {
                assert(0 <= origin[a]);
            }
            assert forall|a: int, b: int| 0 <= a < b < after.len() implies (
            #[trigger] after[a]).info_hash != (#[trigger] after[b]).info_hash by {
                assert(origin[a] < origin[b]);
                assert(before[origin[a]].info_hash != before[origin[b]].info_hash);
            }
            assert forall|h: InfoHash| self@.dom().contains(h) == target.dom().contains(h) by {
                if has_torrent(after, h) {
                    let a = torrent_index(after, h);
                    let j = origin[a];
                    lemma_torrent_index_unique(before, h, j);
                }
                if target.dom().contains(h) {
                    let j = torrent_index(before, h);
                    let a = choose|a: int| 0 <= a < after.len() && #[trigger] origin[a] == j;
                    assert(after[a].info_hash == h);
                }
            }
            assert forall|h: InfoHash| self@.dom().contains(h) implies self@[h] == target[h] by {
                let a = torrent_index(after, h);
                let j = origin[a];
                lemma_torrent_index_unique(before, h, j);
            }
            assert(self@ =~= target);
        }
    }
}

} // verus!
