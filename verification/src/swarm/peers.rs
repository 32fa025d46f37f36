//! The peers of one torrent, in the order in which they first announced.

use vstd::prelude::*;

use crate::common::{PeerId, PeerStatus, Port, ValidUntil};
use crate::net::Ip;
use crate::protocol::types::ProtocolResponsePeer;

verus! {

/// What the tracker remembers of one peer of a torrent.
#[derive(Clone, Copy, Debug)]
pub struct Peer<I: Ip> {
    pub ip_address: I,
    pub port: Port,
    pub status: PeerStatus,
    pub valid_until: ValidUntil,
}

impl<I: Ip> Peer<I> {
    pub open spec fn response_peer(self) -> ProtocolResponsePeer<I> {
        ProtocolResponsePeer { ip_address: self.ip_address, port: self.port }
    }

    pub fn to_response_peer(&self) -> (r: ProtocolResponsePeer<I>)
        ensures
            r == self.response_peer(),
    {
        ProtocolResponsePeer { ip_address: self.ip_address, port: self.port }
    }
}

/// A peer under the id it announced with.
#[derive(Clone, Copy, Debug)]
pub struct PeerEntry<I: Ip> {
    pub peer_id: PeerId,
    pub peer: Peer<I>,
}

/// Whether some entry of `s` has the id `id`.
pub open spec fn has_peer<I: Ip>(s: Seq<PeerEntry<I>>, id: PeerId) -> bool {
    exists|i: int| 0 <= i < s.len() && (#[trigger] s[i]).peer_id == id
}

/// Position of the entry with the id `id`, where there is one.
pub open spec fn peer_index<I: Ip>(s: Seq<PeerEntry<I>>, id: PeerId) -> int {
    choose|i: int| 0 <= i < s.len() && (#[trigger] s[i]).peer_id == id
}

/// No id occurs twice.
pub open spec fn distinct_ids<I: Ip>(s: Seq<PeerEntry<I>>) -> bool {
    forall|i: int, j: int|
        0 <= i < j < s.len() ==> (#[trigger] s[i]).peer_id != (#[trigger] s[j]).peer_id
}

/// No entry is a stopped peer.
pub open spec fn none_stopped<I: Ip>(s: Seq<PeerEntry<I>>) -> bool {
    forall|i: int| 0 <= i < s.len() ==> (#[trigger] s[i]).peer.status != PeerStatus::Stopped
}

/// Number of entries of `s` with the status `status`.
pub open spec fn count_status<I: Ip>(s: Seq<PeerEntry<I>>, status: PeerStatus) -> nat
    decreases s.len(),
{
    if s.len() == 0 {
        0
    } else {
        count_status(s.drop_last(), status) + if s.last().peer.status == status {
            1nat
        } else {
            0nat
        }
    }
}

/// One if `e` has the status `status`, else zero.
pub open spec fn one_if<I: Ip>(e: PeerEntry<I>, status: PeerStatus) -> nat {
    if e.peer.status == status {
        1
    } else {
        0
    }
}

pub proof fn lemma_count_bounded<I: Ip>(s: Seq<PeerEntry<I>>, status: PeerStatus)
    ensures
        count_status(s, status) <= s.len(),
    decreases s.len(),
{
    if s.len() > 0 {
        lemma_count_bounded(s.drop_last(), status);
    }
}

/// Seeders and leechers together are no more than the peers, and are all of
/// them where none is stopped.
pub proof fn lemma_counts_partition<I: Ip>(s: Seq<PeerEntry<I>>)
    ensures
        count_status(s, PeerStatus::Seeding) + count_status(s, PeerStatus::Leeching) <= s.len(),
        none_stopped(s) ==> count_status(s, PeerStatus::Seeding) + count_status(
            s,
            PeerStatus::Leeching,
        ) == s.len(),
    decreases s.len(),
{
    if s.len() > 0 {
        lemma_counts_partition(s.drop_last());
        if none_stopped(s) {
            assert(forall|i: int|
                0 <= i < s.drop_last().len() ==> (#[trigger] s.drop_last()[i]) == s[i]);
            assert(none_stopped(s.drop_last()));
            assert(s[s.len() - 1].peer.status != PeerStatus::Stopped);
        }
    }
}

pub proof fn lemma_count_push<I: Ip>(s: Seq<PeerEntry<I>>, e: PeerEntry<I>, status: PeerStatus)
    ensures
        count_status(s.push(e), status) == count_status(s, status) + one_if(e, status),
{
    assert(s.push(e).drop_last() =~= s);
}

pub proof fn lemma_count_update<I: Ip>(
    s: Seq<PeerEntry<I>>,
    i: int,
    e: PeerEntry<I>,
    status: PeerStatus,
)
    requires
        0 <= i < s.len(),
    ensures
        count_status(s.update(i, e), status) + one_if(s[i], status) == count_status(s, status)
            + one_if(e, status),
    decreases s.len(),
{
    if i == s.len() - 1 {
        assert(s.update(i, e).drop_last() =~= s.drop_last());
    } else {
        lemma_count_update(s.drop_last(), i, e, status);
        assert(s.update(i, e).drop_last() =~= s.drop_last().update(i, e));
    }
}

pub proof fn lemma_count_remove<I: Ip>(s: Seq<PeerEntry<I>>, i: int, status: PeerStatus)
    requires
        0 <= i < s.len(),
    ensures
        count_status(s.remove(i), status) + one_if(s[i], status) == count_status(s, status),
    decreases s.len(),
{
    if i == s.len() - 1 {
        assert(s.remove(i) =~= s.drop_last());
    } else {
        lemma_count_remove(s.drop_last(), i, status);
        assert(s.remove(i).drop_last() =~= s.drop_last().remove(i));
        assert(s.remove(i).last() == s.last());
    }
}

/// With distinct ids, the entry with a given id is found at one place only.
pub proof fn lemma_peer_index_unique<I: Ip>(s: Seq<PeerEntry<I>>, id: PeerId, i: int)
    requires
        distinct_ids(s),
        0 <= i < s.len(),
        s[i].peer_id == id,
    ensures
        has_peer(s, id),
        peer_index(s, id) == i,
{
    let j = peer_index(s, id);
    assert(0 <= j < s.len() && s[j].peer_id == id);
    if j < i {
        assert(s[j].peer_id != s[i].peer_id);
    } else if i < j {
        assert(s[i].peer_id != s[j].peer_id);
    }
}

/// The peers of one torrent. Peers stay in the order in which they were
/// first inserted, and no peer id occurs twice.
#[derive(Debug)]
pub struct PeerMap<I: Ip> {
    pub entries: Vec<PeerEntry<I>>,
}

impl<I: Ip> View for PeerMap<I> {
    type V = Seq<PeerEntry<I>>;

    open spec fn view(&self) -> Seq<PeerEntry<I>> {
        self.entries@
    }
}

impl<I: Ip> PeerMap<I> {
    pub open spec fn wf(&self) -> bool {
        distinct_ids(self@)
    }

    pub fn new() -> (m: PeerMap<I>)
        ensures
            m@ == Seq::<PeerEntry<I>>::empty(),
            m.wf(),
    {
        PeerMap { entries: Vec::new() }
    }

    pub fn len(&self) -> (n: usize)
        ensures
            n == self@.len(),
    {
        self.entries.len()
    }

    pub fn is_empty(&self) -> (r: bool)
        ensures
            r == (self@.len() == 0),
    {
        self.entries.len() == 0
    }

    /// Position of the peer with this id.
    pub fn position(&self, peer_id: &PeerId) -> (r: Option<usize>)
        requires
            self.wf(),
        ensures
            r is Some == has_peer(self@, *peer_id),
            r matches Some(i) ==> i == peer_index(self@, *peer_id) && i < self@.len()
                && self@[i as int].peer_id == *peer_id,
    {
        let mut i: usize = 0;
        while i < self.entries.len()
            invariant
                i <= self.entries.len(),
                self.wf(),
                forall|j: int| 0 <= j < i ==> (#[trigger] self@[j]).peer_id != *peer_id,
            decreases self.entries.len() - i,
        {
            if self.entries[i].peer_id.same(peer_id) {
                proof {
                    lemma_peer_index_unique(self@, *peer_id, i as int);
                }
                return Some(i);
            }
            i += 1;
        }
        None
    }

    /// The peer with this id.
    pub fn get(&self, peer_id: &PeerId) -> (r: Option<Peer<I>>)
        requires
            self.wf(),
        ensures
            r is Some == has_peer(self@, *peer_id),
            r matches Some(p) ==> p == self@[peer_index(self@, *peer_id)].peer,
    {
        match self.position(peer_id) {
            Some(i) => Some(self.entries[i].peer),
            None => None,
        }
    }

    pub fn contains_key(&self, peer_id: &PeerId) -> (r: bool)
        requires
            self.wf(),
        ensures
            r == has_peer(self@, *peer_id),
    {
        self.position(peer_id).is_some()
    }
}

/// Whether a peer has the status `status`.
pub open spec fn with_status<I: Ip>(status: PeerStatus) -> spec_fn(PeerEntry<I>) -> bool {
    |e: PeerEntry<I>| e.peer.status == status
}

/// The count of a status is the number of peers with that status.
pub proof fn lemma_count_is_number_of_peers_with_status<I: Ip>(
    s: Seq<PeerEntry<I>>,
    status: PeerStatus,
)
    ensures
        count_status(s, status) == s.filter(with_status(status)).len(),
    decreases s.len(),
{
    reveal(Seq::filter);
    if s.len() > 0 {
        lemma_count_is_number_of_peers_with_status(s.drop_last(), status);
    }
}

} // verus!
