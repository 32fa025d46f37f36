//! Which peers an announce response lists.

use vstd::prelude::*;

use crate::common::{PeerId, PeerStatus};
use crate::net::Ip;
use crate::seq_util::{
    lemma_filter_empty, lemma_filter_member, lemma_filter_prefix, lemma_filter_step, rotate,
};
use crate::protocol::types::ProtocolResponsePeer;
use crate::swarm::peers::{PeerEntry, PeerMap};

verus! {

/// A class of peers that one walk over the peer map collects.
#[derive(Clone, Copy, Debug, PartialEq, Eq, Structural)]
pub enum PeerClass {
    Any,
    Leeching,
    NotLeeching,
}

/// Position at which a walk over `n` peers begins for the drawn number
/// `offset`.
pub open spec fn selection_start(offset: usize, n: nat) -> int {
    if n == 0 {
        0
    } else {
        (offset as int) % (n as int)
    }
}

/// Whether an entry belongs to `class`.
pub open spec fn in_class<I: Ip>(e: PeerEntry<I>, class: PeerClass) -> bool {
    match class {
        PeerClass::Any => true,
        PeerClass::Leeching => e.peer.status == PeerStatus::Leeching,
        PeerClass::NotLeeching => e.peer.status != PeerStatus::Leeching,
    }
}

/// The entries a walk collects: those of `class` that are not the
/// requester's own.
pub open spec fn wanted<I: Ip>(requester: PeerId, class: PeerClass) -> spec_fn(
    PeerEntry<I>,
) -> bool {
    |e: PeerEntry<I>| e.peer_id != requester && in_class(e, class)
}

/// All entries that may be returned, in the order of preference: the peers in
/// insertion order from the start position on, wrapping once, without the
/// requester; for a requester that prefers leechers, the leechers among them
/// first and the others after them.
pub open spec fn in_preference<I: Ip>(
    peers: Seq<PeerEntry<I>>,
    requester: PeerId,
    offset: usize,
    prefer_leechers: bool,
) -> Seq<PeerEntry<I>> {
    let walk = rotate(peers, selection_start(offset, peers.len()));
    if prefer_leechers {
        walk.filter(wanted(requester, PeerClass::Leeching)) + walk.filter(
            wanted(requester, PeerClass::NotLeeching),
        )
    } else {
        walk.filter(wanted(requester, PeerClass::Any))
    }
}

/// The entries an announce response lists: the first `limit` in the order of
/// preference, or all of them where there are fewer.
pub open spec fn selected_entries<I: Ip>(
    peers: Seq<PeerEntry<I>>,
    requester: PeerId,
    offset: usize,
    limit: usize,
    prefer_leechers: bool,
) -> Seq<PeerEntry<I>> {
    let all = in_preference(peers, requester, offset, prefer_leechers);
    if limit < all.len() {
        all.take(limit as int)
    } else {
        all
    }
}

/// Address and port of each entry.
pub open spec fn response_peers<I: Ip>(s: Seq<PeerEntry<I>>) -> Seq<ProtocolResponsePeer<I>> {
    s.map_values(|e: PeerEntry<I>| e.peer.response_peer())
}

/// The first `room` entries of `s`, or all of them where there are fewer.
pub open spec fn at_most<A>(s: Seq<A>, room: int) -> Seq<A> {
    if room < s.len() {
        s.take(room)
    } else {
        s
    }
}

/// One walk over the peer map from `start` on, wrapping once: appends to
/// `out` the peers of `class` other than the requester, until `room` were
/// appended or the walk is over.
fn collect<I: Ip>(
    peers: &PeerMap<I>,
    start: usize,
    requester: &PeerId,
    class: PeerClass,
    room: usize,
    out: &mut Vec<ProtocolResponsePeer<I>>,
) -> (picked: Ghost<Seq<PeerEntry<I>>>)
    requires
        start <= peers@.len(),
    ensures
        picked@ == at_most(
            rotate(peers@, start as int).filter(wanted(*requester, class)),
            room as int,
        ),
        final(out)@ == old(out)@ + response_peers(picked@),
{
    let n = peers.entries.len();
    let ghost walk = rotate(peers@, start as int);
    let ghost pred = wanted::<I>(*requester, class);
    let ghost mut picked: Seq<PeerEntry<I>> = Seq::empty();
    let mut taken: usize = 0;
    let mut k: usize = 0;
    proof {
        lemma_filter_empty(pred);
        assert(walk.take(0) =~= Seq::<PeerEntry<I>>::empty());
        assert(old(out)@ + response_peers(picked) =~= old(out)@);
    }
    while k < n && taken < room
        invariant
            k <= n,
            n == peers@.len(),
            start <= n,
            walk == rotate(peers@, start as int),
            walk.len() == n,
            pred == wanted::<I>(*requester, class),
            picked == walk.take(k as int).filter(pred),
            taken == picked.len(),
            taken <= room,
            out@ == old(out)@ + response_peers(picked),
        decreases n - k,
    {
        let index = if k < n - start {
            start + k
        } else {
            k - (n - start)
        };
        let entry = peers.entries[index];
        proof {
            crate::seq_util::lemma_rotate_index(peers@, start as int, k as int);
            assert(walk[k as int] == entry);
            lemma_filter_step(walk, pred, k as int);
        }
        let of_class = match class {
            PeerClass::Any => true,
            PeerClass::Leeching => entry.peer.status == PeerStatus::Leeching,
            PeerClass::NotLeeching => entry.peer.status != PeerStatus::Leeching,
        };
        if of_class && !entry.peer_id.same(requester) {
            out.push(entry.peer.to_response_peer());
            taken = taken + 1;
            proof {
                assert(response_peers(picked.push(entry)) =~= response_peers(picked).push(
                    entry.peer.response_peer(),
                ));
                picked = picked.push(entry);
            }
        }
        k += 1;
    }
    proof {
        lemma_filter_prefix(walk, pred, k as int, n as int);
        assert(walk.take(n as int) =~= walk);
        let all = walk.filter(pred);
        assert(all.take(all.len() as int) =~= all);
    }
    Ghost(picked)
}

/// The peers to list in the response to an announce of `requester`, at most
/// `limit` of them.
///
/// The walk starts at `offset` (taken modulo the number of peers), goes on in
/// insertion order and wraps once; the requester itself is never listed. With
/// `prefer_leechers` a first walk lists leechers only, and a second walk
/// fills what is left with the other peers.
pub fn select_peers<I: Ip>(
    peers: &PeerMap<I>,
    requester: &PeerId,
    offset: usize,
    limit: usize,
    prefer_leechers: bool,
) -> (r: Vec<ProtocolResponsePeer<I>>)
    ensures
        r@ == response_peers(
            selected_entries(peers@, *requester, offset, limit, prefer_leechers),
        ),
        r@.len() <= limit,
{
    let n = peers.entries.len();
    let start = if n == 0 {
        0
    } else {
        offset % n
    };
    let mut out: Vec<ProtocolResponsePeer<I>> = Vec::new();
    if prefer_leechers {
        let first = collect(peers, start, requester, PeerClass::Leeching, limit, &mut out);
        let room = limit - out.len();
        let second = collect(peers, start, requester, PeerClass::NotLeeching, room, &mut out);
        proof {
            let walk = rotate(peers@, start as int);
            let a = walk.filter(wanted::<I>(*requester, PeerClass::Leeching));
            let b = walk.filter(wanted::<I>(*requester, PeerClass::NotLeeching));
            assert(response_peers(first@).len() == first@.len());
            assert(first@ + second@ =~= at_most(a + b, limit as int));
            assert(response_peers(first@) + response_peers(second@) =~= response_peers(
                first@ + second@,
            ));
        }
    } else {
        let all = collect(peers, start, requester, PeerClass::Any, limit, &mut out);
    }
    out
}

/// An announce response lists no peer under the requester's own id.
pub proof fn lemma_selection_excludes_requester<I: Ip>(
    peers: Seq<PeerEntry<I>>,
    requester: PeerId,
    offset: usize,
    limit: usize,
    prefer_leechers: bool,
    k: int,
)
    requires
        0 <= k < selected_entries(peers, requester, offset, limit, prefer_leechers).len(),
    ensures
        selected_entries(peers, requester, offset, limit, prefer_leechers)[k].peer_id
            != requester,
{
    let walk = rotate(peers, selection_start(offset, peers.len()));
    if prefer_leechers {
        let a = walk.filter(wanted::<I>(requester, PeerClass::Leeching));
        if k < a.len() {
            lemma_filter_member(walk, wanted::<I>(requester, PeerClass::Leeching), k);
        } else {
            lemma_filter_member(walk, wanted::<I>(requester, PeerClass::NotLeeching), k - a.len());
        }
    } else {
        lemma_filter_member(walk, wanted::<I>(requester, PeerClass::Any), k);
    }
}

/// Every listed entry is a peer of the torrent.
pub proof fn lemma_selection_from_peers<I: Ip>(
    peers: Seq<PeerEntry<I>>,
    requester: PeerId,
    offset: usize,
    limit: usize,
    prefer_leechers: bool,
    k: int,
)
    requires
        0 <= k < selected_entries(peers, requester, offset, limit, prefer_leechers).len(),
    ensures
        peers.contains(selected_entries(peers, requester, offset, limit, prefer_leechers)[k]),
{
    let start = selection_start(offset, peers.len());
    let walk = rotate(peers, start);
    let e = selected_entries(peers, requester, offset, limit, prefer_leechers)[k];
    if prefer_leechers {
        let a = walk.filter(wanted::<I>(requester, PeerClass::Leeching));
        if k < a.len() {
            lemma_filter_member(walk, wanted::<I>(requester, PeerClass::Leeching), k);
        } else {
            lemma_filter_member(walk, wanted::<I>(requester, PeerClass::NotLeeching), k - a.len());
        }
    } else {
        lemma_filter_member(walk, wanted::<I>(requester, PeerClass::Any), k);
    }
    let i = choose|i: int| 0 <= i < walk.len() && walk[i] == e;
    if peers.len() > 0 {
        crate::seq_util::lemma_rotate_index(peers, start, i);
    }
}

} // verus!
