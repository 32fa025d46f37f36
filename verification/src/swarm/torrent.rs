//! One torrent: its peers and the counters an announce response reports.

use vstd::prelude::*;

use crate::common::{PeerId, PeerStatus, ValidUntil};
use crate::net::Ip;
use crate::seq_util::{lemma_filter_empty, lemma_filter_step, shrink_to_fit};
use crate::swarm::peers::{
    count_status, distinct_ids, has_peer, lemma_count_bounded, lemma_count_push,
    lemma_count_remove, lemma_count_update, none_stopped, one_if, peer_index, Peer, PeerEntry,
    PeerMap,
};

verus! {

/// The later of two deadlines.
pub open spec fn later(a: ValidUntil, b: ValidUntil) -> ValidUntil {
    if a.0 > b.0 {
        a
    } else {
        b
    }
}

/// The peer as its new announce describes it; its deadline never moves
/// backward.
pub open spec fn refreshed<I: Ip>(known: Peer<I>, announced: Peer<I>) -> Peer<I> {
    Peer {
        ip_address: announced.ip_address,
        port: announced.port,
        status: announced.status,
        valid_until: later(known.valid_until, announced.valid_until),
    }
}

/// The peers of a torrent after the peer `id` announced itself as `peer`.
///
/// A stopped peer leaves. A known peer keeps its place and is refreshed. A
/// new peer goes to the end.
pub open spec fn peers_after_announce<I: Ip>(
    s: Seq<PeerEntry<I>>,
    id: PeerId,
    peer: Peer<I>,
) -> Seq<PeerEntry<I>> {
    if peer.status == PeerStatus::Stopped {
        if has_peer(s, id) {
            s.remove(peer_index(s, id))
        } else {
            s
        }
    } else if has_peer(s, id) {
        let i = peer_index(s, id);
        s.update(i, PeerEntry { peer_id: id, peer: refreshed(s[i].peer, peer) })
    } else {
        s.push(PeerEntry { peer_id: id, peer })
    }
}

/// Whether a peer is still fresh at `now`.
pub open spec fn is_live<I: Ip>(now: u64) -> spec_fn(PeerEntry<I>) -> bool {
    |e: PeerEntry<I>| e.peer.valid_until.is_live_at(now)
}

/// The peers that a cleaning pass at `now` keeps, in their order.
pub open spec fn live_peers<I: Ip>(s: Seq<PeerEntry<I>>, now: u64) -> Seq<PeerEntry<I>> {
    s.filter(is_live(now))
}

/// The peers of one torrent with the number of seeders and of leechers
/// among them.
#[derive(Debug)]
pub struct TorrentData<I: Ip> {
    pub peers: PeerMap<I>,
    pub num_seeders: usize,
    pub num_leechers: usize,
}

impl<I: Ip> View for TorrentData<I> {
    type V = Seq<PeerEntry<I>>;

    open spec fn view(&self) -> Seq<PeerEntry<I>> {
        self.peers@
    }
}

impl<I: Ip> Default for TorrentData<I> {
    fn default() -> (t: TorrentData<I>)
        ensures
            t@ == Seq::<PeerEntry<I>>::empty(),
            t.wf(),
    {
        TorrentData { peers: PeerMap::new(), num_seeders: 0, num_leechers: 0 }
    }
}

impl<I: Ip> TorrentData<I> {
    /// No peer id occurs twice, no stopped peer is stored, and the two
    /// counters are the numbers of seeding and of leeching peers.
    pub open spec fn wf(&self) -> bool {
        &&& distinct_ids(self@)
        &&& none_stopped(self@)
        &&& self.num_seeders == count_status(self@, PeerStatus::Seeding)
        &&& self.num_leechers == count_status(self@, PeerStatus::Leeching)
    }

    /// Records an announce of the peer `peer_id`.
    pub fn update_peer(&mut self, peer_id: PeerId, peer: Peer<I>)
        requires
            old(self).wf(),
        ensures
            final(self)@ == peers_after_announce(old(self)@, peer_id, peer),
            final(self).wf(),
    {
        let ghost before = self@;
        let found = self.peers.position(&peer_id);
        let len_before = self.peers.entries.len();
        assert(before.len() == len_before);
        proof {
            lemma_count_bounded(before, PeerStatus::Seeding);
            lemma_count_bounded(before, PeerStatus::Leeching);
        }
        match found {
            Some(i) => {
                let known = self.peers.entries[i].peer;
                proof {
                    assert(before[i as int].peer.status != PeerStatus::Stopped);
                }
                match peer.status {
                    PeerStatus::Stopped => {
                        proof {
                            lemma_count_remove(before, i as int, PeerStatus::Seeding);
                            lemma_count_remove(before, i as int, PeerStatus::Leeching);
                        }
                        self.peers.entries.remove(i);
                        match known.status {
                            PeerStatus::Seeding => {
                                self.num_seeders = self.num_seeders - 1;
                            },
                            PeerStatus::Leeching => {
                                self.num_leechers = self.num_leechers - 1;
                            },
                            PeerStatus::Stopped => {},
                        }
                        proof {
                            assert(self@ == before.remove(i as int));
                            assert forall|a: int, b: int| 0 <= a < b < self@.len() implies (
                            #[trigger] self@[a]).peer_id != (#[trigger] self@[b]).peer_id by {
                                let a0 = if a < i { a } else { a + 1 };
                                let b0 = if b < i { b } else { b + 1 };
                                assert(before[a0].peer_id != before[b0].peer_id);
                            }
                            assert forall|a: int| 0 <= a < self@.len() implies (
                            #[trigger] self@[a]).peer.status != PeerStatus::Stopped by {
                                let a0 = if a < i { a } else { a + 1 };
                                assert(before[a0].peer.status != PeerStatus::Stopped);
                            }
                        }
                    },
                    _ => {
                        let valid_until = if known.valid_until.0 > peer.valid_until.0 {
                            known.valid_until
                        } else {
                            peer.valid_until
                        };
                        let entry = PeerEntry {
                            peer_id,
                            peer: Peer {
                                ip_address: peer.ip_address,
                                port: peer.port,
                                status: peer.status,
                                valid_until,
                            },
                        };
                        proof {
                            lemma_count_remove(before, i as int, PeerStatus::Seeding);
                            lemma_count_remove(before, i as int, PeerStatus::Leeching);
                            lemma_count_update(before, i as int, entry, PeerStatus::Seeding);
                            lemma_count_update(before, i as int, entry, PeerStatus::Leeching);
                            lemma_count_bounded(before.update(i as int, entry), PeerStatus::Seeding);
                            lemma_count_bounded(
                                before.update(i as int, entry),
                                PeerStatus::Leeching,
                            );
                        }
                        self.peers.entries.set(i, entry);
                        match known.status {
                            PeerStatus::Seeding => {
                                self.num_seeders = self.num_seeders - 1;
                            },
                            PeerStatus::Leeching => {
                                self.num_leechers = self.num_leechers - 1;
                            },
                            PeerStatus::Stopped => {},
                        }
                        match peer.status {
                            PeerStatus::Seeding => {
                                self.num_seeders = self.num_seeders + 1;
                            },
                            PeerStatus::Leeching => {
                                self.num_leechers = self.num_leechers + 1;
                            },
                            PeerStatus::Stopped => {},
                        }
                        proof {
                            assert(self@ == before.update(i as int, entry));
                            assert forall|a: int, b: int| 0 <= a < b < self@.len() implies (
                            #[trigger] self@[a]).peer_id != (#[trigger] self@[b]).peer_id by {
                                assert(before[a].peer_id != before[b].peer_id);
                            }
                            assert forall|a: int| 0 <= a < self@.len() implies (
                            #[trigger] self@[a]).peer.status != PeerStatus::Stopped by {
                                if a != i {
                                    assert(before[a].peer.status != PeerStatus::Stopped);
                                }
                            }
                        }
                    },
                }
            },
            None => {
                match peer.status {
                    PeerStatus::Stopped => {},
                    _ => {
                        let entry = PeerEntry { peer_id, peer };
                        proof {
                            lemma_count_push(before, entry, PeerStatus::Seeding);
                            lemma_count_push(before, entry, PeerStatus::Leeching);
                            lemma_count_bounded(before.push(entry), PeerStatus::Seeding);
                            lemma_count_bounded(before.push(entry), PeerStatus::Leeching);
                        }
                        self.peers.entries.push(entry);
                        let len = self.peers.entries.len();
                        assert(before.push(entry).len() == len);
                        match peer.status {
                            PeerStatus::Seeding => {
                                self.num_seeders = self.num_seeders + 1;
                            },
                            PeerStatus::Leeching => {
                                self.num_leechers = self.num_leechers + 1;
                            },
                            PeerStatus::Stopped => {},
                        }
                        proof {
                            assert(self@ == before.push(entry));
                            assert forall|a: int, b: int| 0 <= a < b < self@.len() implies (
                            #[trigger] self@[a]).peer_id != (#[trigger] self@[b]).peer_id by {
                                if b < before.len() {
                                    assert(before[a].peer_id != before[b].peer_id);
                                } else {
                                    assert(before[a].peer_id != peer_id);
                                }
                            }
                            assert forall|a: int| 0 <= a < self@.len() implies (
                            #[trigger] self@[a]).peer.status != PeerStatus::Stopped by {
                                if a < before.len() {
                                    assert(before[a].peer.status != PeerStatus::Stopped);
                                }
                            }
                        }
                    },
                }
            },
        }
    }
}

/// Counting over two sequences joined is counting over each.
pub proof fn lemma_count_add<I: Ip>(a: Seq<PeerEntry<I>>, b: Seq<PeerEntry<I>>, status: PeerStatus)
    ensures
        count_status(a + b, status) == count_status(a, status) + count_status(b, status),
    decreases b.len(),
{
    if b.len() == 0 {
        assert(a + b =~= a);
    } else {
        lemma_count_add(a, b.drop_last(), status);
        assert((a + b).drop_last() =~= a + b.drop_last());
        assert((a + b).last() == b.last());
    }
}

impl<I: Ip> TorrentData<I> {
    /// Drops the peers that are stale at `now`, takes them out of the
    /// counters, and gives back the memory they took. Returns whether the
    /// torrent still has peers, that is whether it is to be kept.
    pub fn clean(&mut self, now: u64) -> (keep: bool)
        requires
            old(self).wf(),
        ensures
            final(self)@ == live_peers(old(self)@, now),
            final(self).wf(),
            keep == (live_peers(old(self)@, now).len() > 0),
    {
        let ghost before = self@;
        let n = self.peers.entries.len();
        let mut kept: Vec<PeerEntry<I>> = Vec::new();
        let mut num_seeders = self.num_seeders;
        let mut num_leechers = self.num_leechers;
        let ghost mut origin: Seq<int> = Seq::empty();
        let mut i: usize = 0;
        proof {
            lemma_filter_empty(is_live::<I>(now));
            assert(before.take(0) =~= Seq::<PeerEntry<I>>::empty());
            assert(before.subrange(0, n as int) =~= before);
            lemma_count_add(kept@, before, PeerStatus::Seeding);
            lemma_count_add(kept@, before, PeerStatus::Leeching);
            assert(kept@ + before =~= before);
        }
        while i < n
            invariant
                i <= n,
                n == before.len(),
                self@ == before,
                distinct_ids(before),
                none_stopped(before),
                kept@ == before.take(i as int).filter(is_live(now)),
                origin.len() == kept@.len(),
                forall|a: int|
                    0 <= a < kept@.len() ==> 0 <= #[trigger] origin[a] < i && kept@[a]
                        == before[origin[a]],
                forall|a: int, b: int|
                    0 <= a < b < kept@.len() ==> #[trigger] origin[a] < #[trigger] origin[b],
                num_seeders == count_status(kept@, PeerStatus::Seeding) + count_status(
                    before.subrange(i as int, n as int),
                    PeerStatus::Seeding,
                ),
                num_leechers == count_status(kept@, PeerStatus::Leeching) + count_status(
                    before.subrange(i as int, n as int),
                    PeerStatus::Leeching,
                ),
            decreases n - i,
        {
            let entry = self.peers.entries[i];
            let ghost rest = before.subrange(i as int + 1, n as int);
            proof {
                lemma_filter_step(before, is_live(now), i as int);
                assert(before.subrange(i as int, n as int) =~= seq![entry] + rest);
                lemma_count_add(seq![entry], rest, PeerStatus::Seeding);
                lemma_count_add(seq![entry], rest, PeerStatus::Leeching);
                lemma_count_push(Seq::empty(), entry, PeerStatus::Seeding);
                lemma_count_push(Seq::empty(), entry, PeerStatus::Leeching);
                assert(Seq::<PeerEntry<I>>::empty().push(entry) =~= seq![entry]);
                lemma_count_push(kept@, entry, PeerStatus::Seeding);
                lemma_count_push(kept@, entry, PeerStatus::Leeching);
                assert(before[i as int].peer.status != PeerStatus::Stopped);
            }
            if entry.peer.valid_until.live_at(now) {
                kept.push(entry);
                proof {
                    origin = origin.push(i as int);
                }
            } else {
                match entry.peer.status {
                    PeerStatus::Seeding => {
                        num_seeders = num_seeders - 1;
                    },
                    PeerStatus::Leeching => {
                        num_leechers = num_leechers - 1;
                    },
                    PeerStatus::Stopped => {},
                }
            }
            i += 1;
        }
        proof {
            assert(before.take(n as int) =~= before);
            assert(before.subrange(n as int, n as int) =~= Seq::<PeerEntry<I>>::empty());
            assert forall|a: int, b: int| 0 <= a < b < kept@.len() implies (#[trigger] kept@[a]).peer_id
                != (#[trigger] kept@[b]).peer_id by {
                assert(origin[a] < origin[b]);
                assert(before[origin[a]].peer_id != before[origin[b]].peer_id);
            }
            assert forall|a: int| 0 <= a < kept@.len() implies (#[trigger] kept@[a]).peer.status
                != PeerStatus::Stopped by {
                assert(before[origin[a]].peer.status != PeerStatus::Stopped);
            }
        }
        let keep = kept.len() > 0;
        shrink_to_fit(&mut kept);
        self.peers.entries = kept;
        self.num_seeders = num_seeders;
        self.num_leechers = num_leechers;
        keep
    }
}

/// In a well-formed torrent the two counters are the numbers of seeding and
/// of leeching peers, and together the number of all peers.
pub proof fn lemma_counters_count_peers<I: Ip>(torrent: TorrentData<I>)
    requires
        torrent.wf(),
    ensures
        torrent.num_seeders == torrent@.filter(
            crate::swarm::peers::with_status(PeerStatus::Seeding),
        ).len(),
        torrent.num_leechers == torrent@.filter(
            crate::swarm::peers::with_status(PeerStatus::Leeching),
        ).len(),
        torrent.num_seeders + torrent.num_leechers == torrent@.len(),
{
    crate::swarm::peers::lemma_count_is_number_of_peers_with_status(torrent@, PeerStatus::Seeding);
    crate::swarm::peers::lemma_count_is_number_of_peers_with_status(torrent@, PeerStatus::Leeching);
    crate::swarm::peers::lemma_counts_partition(torrent@);
}

/// A peer's deadline never moves backward by an announce, and is the
/// announced deadline whenever that is not earlier than the one known.
pub proof fn lemma_deadline_never_moves_backward<I: Ip>(known: Peer<I>, announced: Peer<I>)
    ensures
        refreshed(known, announced).valid_until.0 >= known.valid_until.0,
        refreshed(known, announced).valid_until.0 >= announced.valid_until.0,
        known.valid_until.0 <= announced.valid_until.0 ==> refreshed(known, announced)
            == announced,
{
}

/// What holds of the peers of a torrent at all times: no peer id occurs
/// twice, and no stopped peer is stored.
pub open spec fn well_kept<I: Ip>(s: Seq<PeerEntry<I>>) -> bool {
    distinct_ids(s) && none_stopped(s)
}

/// An announce keeps the peers of a torrent well kept, and moves the
/// counts of seeding and of leeching peers by the peer that came, went or
/// changed.
pub proof fn lemma_announce_keeps_peers<I: Ip>(s: Seq<PeerEntry<I>>, id: PeerId, peer: Peer<I>)
    requires
        well_kept(s),
    ensures
        well_kept(peers_after_announce(s, id, peer)),
        forall|status: PeerStatus|
            status != PeerStatus::Stopped ==> #[trigger] count_status(
                peers_after_announce(s, id, peer),
                status,
            ) + (if has_peer(s, id) && s[peer_index(s, id)].peer.status == status {
                1nat
            } else {
                0nat
            }) == count_status(s, status) + (if peer.status == status {
                1nat
            } else {
                0nat
            }),
{
    let after = peers_after_announce(s, id, peer);
    if has_peer(s, id) {
        let i = peer_index(s, id);
        assert(s[i].peer.status != PeerStatus::Stopped);
        if peer.status == PeerStatus::Stopped {
            assert forall|a: int, b: int| 0 <= a < b < after.len() implies (#[trigger] after[a]).peer_id
                != (#[trigger] after[b]).peer_id by {
                let a0 = if a < i { a } else { a + 1 };
                let b0 = if b < i { b } else { b + 1 };
                assert(s[a0].peer_id != s[b0].peer_id);
            }
            assert forall|a: int| 0 <= a < after.len() implies (#[trigger] after[a]).peer.status
                != PeerStatus::Stopped by {
                let a0 = if a < i { a } else { a + 1 };
                assert(s[a0].peer.status != PeerStatus::Stopped);
            }
            assert forall|status: PeerStatus| status != PeerStatus::Stopped implies #[trigger] count_status(
                after,
                status,
            ) + one_if(s[i], status) == count_status(s, status) by {
                lemma_count_remove(s, i, status);
            }
        } else {
            let entry = PeerEntry { peer_id: id, peer: refreshed(s[i].peer, peer) };
            assert forall|a: int, b: int| 0 <= a < b < after.len() implies (#[trigger] after[a]).peer_id
                != (#[trigger] after[b]).peer_id by {
                assert(s[a].peer_id != s[b].peer_id);
            }
            assert forall|a: int| 0 <= a < after.len() implies (#[trigger] after[a]).peer.status
                != PeerStatus::Stopped by {
                if a != i {
                    assert(s[a].peer.status != PeerStatus::Stopped);
                }
            }
            assert forall|status: PeerStatus| status != PeerStatus::Stopped implies #[trigger] count_status(
                after,
                status,
            ) + one_if(s[i], status) == count_status(s, status) + one_if(entry, status) by {
                lemma_count_update(s, i, entry, status);
            }
        }
    } else if peer.status != PeerStatus::Stopped {
        let entry = PeerEntry { peer_id: id, peer };
        assert forall|a: int, b: int| 0 <= a < b < after.len() implies (#[trigger] after[a]).peer_id
            != (#[trigger] after[b]).peer_id by {
            if b < s.len() {
                assert(s[a].peer_id != s[b].peer_id);
            } else {
                assert(s[a].peer_id != id);
            }
        }
        assert forall|a: int| 0 <= a < after.len() implies (#[trigger] after[a]).peer.status
            != PeerStatus::Stopped by {
            if a < s.len() {
                assert(s[a].peer.status != PeerStatus::Stopped);
            }
        }
        assert forall|status: PeerStatus| status != PeerStatus::Stopped implies #[trigger] count_status(
            after,
            status,
        ) == count_status(s, status) + one_if(entry, status) by {
            lemma_count_push(s, entry, status);
        }
    }
}

/// A cleaning pass keeps the peers of a torrent well kept: what it leaves
/// are peers that were there, each at most once, and all of them fresh.
pub proof fn lemma_cleaning_keeps_peers<I: Ip>(s: Seq<PeerEntry<I>>, now: u64)
    requires
        well_kept(s),
    ensures
        well_kept(live_peers(s, now)),
        forall|k: int|
            0 <= k < live_peers(s, now).len() ==> (#[trigger] live_peers(
                s,
                now,
            )[k]).peer.valid_until.is_live_at(now) && s.contains(live_peers(s, now)[k]),
    decreases s.len(),
{
    reveal(Seq::filter);
    let kept = live_peers(s, now);
    if s.len() > 0 {
        let rest = s.drop_last();
        let last = s.last();
        assert forall|a: int, b: int| 0 <= a < b < rest.len() implies (#[trigger] rest[a]).peer_id
            != (#[trigger] rest[b]).peer_id by {
            assert(s[a].peer_id != s[b].peer_id);
        }
        assert forall|a: int| 0 <= a < rest.len() implies (#[trigger] rest[a]).peer.status
            != PeerStatus::Stopped by {
            assert(s[a].peer.status != PeerStatus::Stopped);
        }
        lemma_cleaning_keeps_peers(rest, now);
        let before = live_peers(rest, now);
        assert forall|k: int| 0 <= k < kept.len() implies (#[trigger] kept[k]).peer.valid_until.is_live_at(
            now,
        ) && s.contains(kept[k]) by {
            if k < before.len() {
                assert(rest.contains(before[k]));
                let i = choose|i: int| 0 <= i < rest.len() && rest[i] == before[k];
                assert(s[i] == kept[k]);
            } else {
                assert(s[s.len() - 1] == kept[k]);
            }
        }
        assert forall|a: int, b: int| 0 <= a < b < kept.len() implies (#[trigger] kept[a]).peer_id
            != (#[trigger] kept[b]).peer_id by {
            if b < before.len() {
                assert(before[a].peer_id != before[b].peer_id);
            } else {
                assert(rest.contains(before[a]));
                let i = choose|i: int| 0 <= i < rest.len() && rest[i] == before[a];
                assert(s[i].peer_id != s[s.len() - 1].peer_id);
            }
        }
        assert forall|a: int| 0 <= a < kept.len() implies (#[trigger] kept[a]).peer.status
            != PeerStatus::Stopped by {
            let i = choose|i: int| 0 <= i < s.len() && s[i] == kept[a];
            assert(s[i].peer.status != PeerStatus::Stopped);
        }
    }
}

} // verus!
