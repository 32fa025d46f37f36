//! A scrape that spans several shards: split into one request per shard,
//! and put together again from the shards' answers.

use slab::Slab;
use std::collections::BTreeMap;
use vstd::prelude::*;
use vstd::std_specs::btree::spec_btree_map_iter;
use vstd::std_specs::iter::IteratorSpec;

use crate::common::{shard_of, InfoHash, NumberOfDownloads, NumberOfPeers, SwarmWorkerIndex,
    TransactionId, ValidUntil};
use crate::split::{
    is_position_split, lemma_shard_positions, shard_involved, shard_positions, split_by_shard,
};
use crate::config::Config;
use crate::protocol::types::{no_statistics, ScrapeRequest, ScrapeResponse,
    TorrentScrapeStatistics};

verus! {

/// The part of a scrape request that one shard answers: the info hashes
/// this shard owns, each under its position in the client's request.
#[derive(Debug)]
pub struct PendingScrapeRequest {
    pub slab_key: usize,
    pub info_hashes: BTreeMap<usize, InfoHash>,
}

/// One shard's answer to its part of a scrape request: the statistics of
/// each torrent, under the position of its info hash in the client's
/// request.
#[derive(Debug)]
pub struct PendingScrapeResponse {
    pub slab_key: usize,
    pub torrent_stats: BTreeMap<usize, TorrentScrapeStatistics>,
}

/// A scrape whose answer is not complete yet.
#[derive(Debug)]
pub struct PendingScrapeResponseSlabEntry {
    /// Number of shards that have not answered yet.
    pub num_pending: usize,
    /// When the tracker stops waiting for them.
    pub valid_until: ValidUntil,
    /// The statistics that came in so far, by position in the request.
    pub torrent_stats: BTreeMap<usize, TorrentScrapeStatistics>,
    pub transaction_id: TransactionId,
    /// Number of info hashes in the client's request.
    pub num_hashes: usize,
}

/// What a pending scrape holds, with its statistics as a map.
pub struct PendingScrape {
    pub num_pending: nat,
    pub valid_until: ValidUntil,
    pub torrent_stats: Map<usize, TorrentScrapeStatistics>,
    pub transaction_id: TransactionId,
    pub num_hashes: nat,
}

impl View for PendingScrapeResponseSlabEntry {
    type V = PendingScrape;

    open spec fn view(&self) -> PendingScrape {
        PendingScrape {
            num_pending: self.num_pending as nat,
            valid_until: self.valid_until,
            torrent_stats: self.torrent_stats@,
            transaction_id: self.transaction_id,
            num_hashes: self.num_hashes as nat,
        }
    }
}

/// `slab::Slab`: storage that hands out a key for each entry it takes in.
#[verifier::external_type_specification]
#[verifier::external_body]
#[verifier::reject_recursive_types(T)]
pub struct ExSlab<T>(Slab<T>);

/// The entries that a slab holds, each under its key.
pub uninterp spec fn slab_entries(slab: Slab<PendingScrapeResponseSlabEntry>) -> Map<
    usize,
    PendingScrapeResponseSlabEntry,
>;

/// The key under which a slab stores the next entry.
pub uninterp spec fn slab_next_key(slab: Slab<PendingScrapeResponseSlabEntry>) -> usize;

/// `Slab::new`: a slab that holds nothing.
#[verifier::external_body]
fn slab_new() -> (created: Slab<PendingScrapeResponseSlabEntry>)
    ensures
        slab_entries(created) =~= Map::empty(),
{
    Slab::new()
}

/// `Slab::len`: the number of entries the slab holds.
#[verifier::external_body]
fn slab_len(slab: &Slab<PendingScrapeResponseSlabEntry>) -> (n: usize)
    ensures
        n == slab_entries(*slab).len(),
{
    slab.len()
}

/// `Slab::insert`: stores the entry under the slab's next key, which is a
/// key that was not in use, and returns that key. Every other entry stays
/// where it was. (Like `Vec::push`, the call aborts when memory runs out.)
#[verifier::external_body]
fn slab_insert(
    slab: &mut Slab<PendingScrapeResponseSlabEntry>,
    entry: PendingScrapeResponseSlabEntry,
) -> (key: usize)
    ensures
        key == slab_next_key(*old(slab)),
        !slab_entries(*old(slab)).contains_key(key),
        slab_entries(*final(slab)) == slab_entries(*old(slab)).insert(key, entry),
{
    slab.insert(entry)
}

/// `Slab::try_remove`: takes out and returns the entry under `key`, where
/// there is one; the key it frees is the one the slab uses next. Without
/// such an entry nothing changes.
#[verifier::external_body]
fn slab_try_remove(slab: &mut Slab<PendingScrapeResponseSlabEntry>, key: usize) -> (removed:
    Option<PendingScrapeResponseSlabEntry>)
    ensures
        removed is Some == slab_entries(*old(slab)).contains_key(key),
        removed matches Some(entry) ==> entry == slab_entries(*old(slab))[key] && slab_next_key(
            *final(slab),
        ) == key,
        slab_entries(*final(slab)) == slab_entries(*old(slab)).remove(key),
        removed is None ==> slab_next_key(*final(slab)) == slab_next_key(*old(slab)),
{
    slab.try_remove(key)
}

/// Whether the tracker still waits for the answers to a pending scrape at
/// `now`.
pub fn entry_is_live(entry: &PendingScrapeResponseSlabEntry, now: u64) -> (r: bool)
    ensures
        r == entry.valid_until.is_live_at(now),
{
    entry.valid_until.live_at(now)
}

/// `Slab::retain` with the test whether an entry is still waited for at
/// `now`: the entries that pass stay under their keys, the others leave.
#[verifier::external_body]
fn slab_retain_live(slab: &mut Slab<PendingScrapeResponseSlabEntry>, now: u64)
    ensures
        slab_entries(*final(slab)) == slab_entries(*old(slab)).restrict(
            Set::new(
                |key: usize|
                    slab_entries(*old(slab)).contains_key(key) && slab_entries(
                        *old(slab),
                    )[key].valid_until.is_live_at(now),
            ),
        ),
{
    slab.retain(|_, entry| entry_is_live(entry, now))
}

/// `Slab::shrink_to_fit`: gives back memory and leaves every entry under
/// its key.
#[verifier::external_body]
fn slab_shrink_to_fit(slab: &mut Slab<PendingScrapeResponseSlabEntry>)
    ensures
        slab_entries(*final(slab)) == slab_entries(*old(slab)),
{
    slab.shrink_to_fit()
}

/// The part of the request `hashes` that the shard `worker` owns: each of
/// its info hashes under its position in the request.
pub open spec fn shard_part(hashes: Seq<InfoHash>, swarm_workers: int, worker: int) -> Map<
    usize,
    InfoHash,
> {
    Map::new(
        |i: usize| i < hashes.len() && shard_of(hashes[i as int], swarm_workers) == worker,
        |i: usize| hashes[i as int],
    )
}

/// Whether `parts` is the request `hashes` split by shard: one part for
/// each shard that owns an info hash of the request, in the order of the
/// shards, each with the key `slab_key` and with exactly the info hashes
/// of its shard.
pub open spec fn is_split(
    parts: Seq<(SwarmWorkerIndex, PendingScrapeRequest)>,
    hashes: Seq<InfoHash>,
    swarm_workers: int,
    slab_key: usize,
) -> bool {
    &&& forall|a: int|
        0 <= a < parts.len() ==> {
            &&& 0 <= (#[trigger] parts[a]).0.0 < swarm_workers
            &&& parts[a].1.slab_key == slab_key
            &&& parts[a].1.info_hashes@ == shard_part(hashes, swarm_workers, parts[a].0.0 as int)
            &&& shard_involved(hashes, swarm_workers, parts[a].0.0 as int)
        }
    &&& forall|a: int, b: int|
        0 <= a < b < parts.len() ==> (#[trigger] parts[a]).0.0 < (#[trigger] parts[b]).0.0
    &&& forall|w: int|
        0 <= w < swarm_workers && #[trigger] shard_involved(hashes, swarm_workers, w)
            ==> exists|a: int| 0 <= a < parts.len() && (#[trigger] parts[a]).0.0 == w
}

/// The statistics of a complete scrape in the order of the request: for
/// each position the statistics that came in for it, and zeros where none
/// came in.
pub open spec fn assembled(stats: Map<usize, TorrentScrapeStatistics>, num_hashes: nat) -> Seq<
    TorrentScrapeStatistics,
> {
    Seq::new(
        num_hashes,
        |i: int|
            if stats.contains_key(i as usize) {
                stats[i as usize]
            } else {
                no_statistics()
            },
    )
}

/// The part of the request for a shard whose positions in the request are
/// `positions`.
fn part_of(
    hashes: &Vec<InfoHash>,
    positions: &Vec<usize>,
    Ghost(swarm_workers): Ghost<int>,
    Ghost(worker): Ghost<int>,
) -> (part: BTreeMap<usize, InfoHash>)
    requires
        positions@ == shard_positions(hashes@, swarm_workers, worker),
    ensures
        part@ == shard_part(hashes@, swarm_workers, worker),
{
    let mut part: BTreeMap<usize, InfoHash> = BTreeMap::new();
    let total = hashes.len();
    proof {
        lemma_shard_positions(hashes@, swarm_workers, worker);
    }
    let mut k: usize = 0;
    while k < positions.len()
        invariant
            k <= positions@.len(),
            total == hashes@.len(),
            forall|j: int| 0 <= j < positions@.len() ==> (#[trigger] positions@[j]) < hashes@.len(),
            forall|i: usize| #[trigger]
                part@.contains_key(i) <==> exists|j: int| 0 <= j < k && positions@[j] == i,
            forall|i: usize| #[trigger] part@.contains_key(i) ==> part@[i] == hashes@[i as int],
        decreases positions.len() - k,
    {
        let position = positions[k];
        let ghost before = part@;
        part.insert(position, hashes[position]);
        proof {
            assert forall|i: usize| #[trigger] part@.contains_key(i) <==> exists|j: int|
                0 <= j < k + 1 && positions@[j] == i by {
                if before.contains_key(i) {
                    let j = choose|j: int| 0 <= j < k && positions@[j] == i;
                    assert(0 <= j < k + 1 && positions@[j] == i);
                }
                if i == position {
                    assert(positions@[k as int] == i);
                }
            }
        }
        k += 1;
    }
    proof {
        let target = shard_part(hashes@, swarm_workers, worker);
        assert forall|i: usize| part@.contains_key(i) == target.contains_key(i) by {
            if part@.contains_key(i) {
                let j = choose|j: int| 0 <= j < positions@.len() && positions@[j] == i;
                assert(shard_of(hashes@[positions@[j] as int], swarm_workers) == worker);
            }
            if target.contains_key(i) {
                assert(shard_of(hashes@[i as int], swarm_workers) == worker);
                assert(positions@.contains(i));
            }
        }
        assert(part@ =~= target);
    }
    part
}

/// The statistics in the order of the request.
fn assemble(stats: &BTreeMap<usize, TorrentScrapeStatistics>, num_hashes: usize) -> (r: Vec<
    TorrentScrapeStatistics,
>)
    ensures
        r@ == assembled(stats@, num_hashes as nat),
{
    let mut out: Vec<TorrentScrapeStatistics> = Vec::new();
    let mut i: usize = 0;
    while i < num_hashes
        invariant
            i <= num_hashes,
            out@ == assembled(stats@, i as nat),
        decreases num_hashes - i,
    {
        let entry = match stats.get(&i) {
            Some(found) => *found,
            None => TorrentScrapeStatistics {
                seeders: NumberOfPeers(0),
                completed: NumberOfDownloads(0),
                leechers: NumberOfPeers(0),
            },
        };
        out.push(entry);
        i += 1;
        assert(out@ =~= assembled(stats@, i as nat));
    }
    out
}

/// Adds the statistics of one shard's answer to those that came in before.
fn merge_stats(
    known: &mut BTreeMap<usize, TorrentScrapeStatistics>,
    answer: &BTreeMap<usize, TorrentScrapeStatistics>,
)
    ensures
        final(known)@ == old(known)@.union_prefer_right(answer@),
{
    let ghost before = known@;
    for kv in it: answer.iter()
        invariant
            forall|j: int|
                0 <= j < it.index() ==> known@.contains_key(*(#[trigger] it.seq()[j]).0)
                    && known@[*it.seq()[j].0] == answer@[*it.seq()[j].0],
            forall|k: usize| #[trigger]
                known@.contains_key(k) ==> before.contains_key(k) || answer@.contains_key(k),
            forall|k: usize| #[trigger]
                known@.contains_key(k) && !answer@.contains_key(k) ==> known@[k] == before[k],
            forall|k: usize| #[trigger] before.contains_key(k) ==> known@.contains_key(k),
    {
        let (index, stats) = kv;
        assert(answer@.contains_key(*index) && answer@[*index] == *stats);
        known.insert(*index, *stats);
    }
    proof {
        let target = before.union_prefer_right(answer@);
        assert forall|k: usize| answer@.contains_key(k) implies known@.contains_key(k) && known@[k]
            == answer@[k] by {
            let v = spec_btree_map_iter(answer).remaining();
            assert(v.contains((&k, &answer@[k])));
            let j = choose|j: int| 0 <= j < v.len() && v[j] == (&k, &answer@[k]);
            assert(known@.contains_key(*v[j].0));
        }
        assert(known@ =~= target);
    }
}

/// The scrapes of one socket worker whose answers are not complete yet.
pub struct PendingScrapeResponseSlab {
    pub slab: Slab<PendingScrapeResponseSlabEntry>,
}

impl View for PendingScrapeResponseSlab {
    type V = Map<usize, PendingScrapeResponseSlabEntry>;

    open spec fn view(&self) -> Map<usize, PendingScrapeResponseSlabEntry> {
        slab_entries(self.slab)
    }
}

impl Default for PendingScrapeResponseSlab {
    fn default() -> (slab: PendingScrapeResponseSlab)
        ensures
            slab@ == Map::<usize, PendingScrapeResponseSlabEntry>::empty(),
    {
        PendingScrapeResponseSlab { slab: slab_new() }
    }
}

impl PendingScrapeResponseSlab {
    /// Number of scrapes that wait for answers.
    pub fn len(&self) -> (n: usize)
        ensures
            n == self@.len(),
    {
        slab_len(&self.slab)
    }

    /// Splits a scrape request into one request per shard that owns one of
    /// its info hashes, and remembers how many answers are to come.
    ///
    /// A request without info hashes is split into nothing, and nothing is
    /// remembered of it.
    pub fn prepare_split_requests(
        &mut self,
        config: &Config,
        request: ScrapeRequest,
        valid_until: ValidUntil,
    ) -> (parts: Vec<(SwarmWorkerIndex, PendingScrapeRequest)>)
        requires
            config.swarm_workers > 0,
        ensures
            request.info_hashes@.len() == 0 ==> parts@.len() == 0 && final(self)@ == old(self)@,
            request.info_hashes@.len() > 0 ==> exists|slab_key: usize|
                {
                    &&& !old(self)@.contains_key(slab_key)
                    &&& final(self)@.dom() == old(self)@.dom().insert(slab_key)
                    &&& forall|k: usize| #[trigger]
                        old(self)@.contains_key(k) ==> final(self)@[k] == old(self)@[k]
                    &&& final(self)@[slab_key]@ == (PendingScrape {
                        num_pending: parts@.len(),
                        valid_until,
                        torrent_stats: Map::empty(),
                        transaction_id: request.transaction_id,
                        num_hashes: request.info_hashes@.len(),
                    })
                    &&& parts@.len() > 0
                    &&& is_split(
                        parts@,
                        request.info_hashes@,
                        config.swarm_workers as int,
                        slab_key,
                    )
                },
    {
        let mut parts: Vec<(SwarmWorkerIndex, PendingScrapeRequest)> = Vec::new();
        if request.info_hashes.len() == 0 {
            return parts;
        }
        let ghost hashes = request.info_hashes@;
        let ghost workers = config.swarm_workers as int;
        let groups = split_by_shard(&request.info_hashes, config);
        let entry = PendingScrapeResponseSlabEntry {
            num_pending: groups.len(),
            valid_until,
            torrent_stats: BTreeMap::new(),
            transaction_id: request.transaction_id,
            num_hashes: request.info_hashes.len(),
        };
        let slab_key = slab_insert(&mut self.slab, entry);
        let ghost groups_seq = groups@;
        for group in it: groups
            invariant
                it.seq() == groups_seq,
                hashes == request.info_hashes@,
                is_position_split(groups_seq, hashes, workers),
                parts@.len() == it.index(),
                forall|a: int|
                    0 <= a < parts@.len() ==> {
                        &&& (#[trigger] parts@[a]).0 == groups_seq[a].0
                        &&& parts@[a].1.slab_key == slab_key
                        &&& parts@[a].1.info_hashes@ == shard_part(
                            hashes,
                            workers,
                            groups_seq[a].0.0 as int,
                        )
                    },
        {
            let (index, positions) = group;
            assert(positions@ == shard_positions(hashes, workers, index.0 as int)) by {
                assert(groups_seq[it.index() as int].1@ == positions@);
            }
            let info_hashes = part_of(
                &request.info_hashes,
                &positions,
                Ghost(workers),
                Ghost(index.0 as int),
            );
            parts.push((index, PendingScrapeRequest { slab_key, info_hashes }));
        }
        proof {
            assert(parts@.len() == groups_seq.len());
            assert forall|w: int|
                0 <= w < workers && #[trigger] shard_involved(hashes, workers, w) implies exists|
                a: int,
            | 0 <= a < parts@.len() && (#[trigger] parts@[a]).0.0 == w by {
                let a = choose|a: int|
                    0 <= a < groups_seq.len() && (#[trigger] groups_seq[a]).0.0 == w;
                assert(parts@[a].0.0 == w);
            }
            assert(is_split(parts@, hashes, workers, slab_key));
            assert(self@.dom() =~= old(self)@.dom().insert(slab_key));
        }
        parts
    }

    /// Takes in one shard's answer. Returns the complete response once the
    /// last shard has answered, and forgets the scrape then.
    ///
    /// An answer to a scrape that is not waited for (any more) changes
    /// nothing.
    pub fn add_and_get_finished(&mut self, response: PendingScrapeResponse) -> (finished: Option<
        ScrapeResponse,
    >)
        ensures
            !old(self)@.contains_key(response.slab_key) ==> finished is None && final(self)@
                == old(self)@,
            old(self)@.contains_key(response.slab_key) ==> {
                let entry = old(self)@[response.slab_key]@;
                let merged = entry.torrent_stats.union_prefer_right(response.torrent_stats@);
                if entry.num_pending <= 1 {
                    &&& final(self)@ == old(self)@.remove(response.slab_key)
                    &&& finished matches Some(complete)
                    &&& complete.transaction_id == entry.transaction_id
                    &&& complete.torrent_stats@ == assembled(merged, entry.num_hashes)
                } else {
                    &&& finished is None
                    &&& final(self)@.dom() == old(self)@.dom()
                    &&& forall|k: usize| #[trigger]
                        old(self)@.contains_key(k) && k != response.slab_key ==> final(self)@[k]
                            == old(self)@[k]
                    &&& final(self)@[response.slab_key]@ == (PendingScrape {
                        num_pending: (entry.num_pending - 1) as nat,
                        torrent_stats: merged,
                        ..entry
                    })
                }
            },
    {
        match slab_try_remove(&mut self.slab, response.slab_key) {
            None => {
                assert(self@ =~= old(self)@);
                None
            },
            Some(entry) => {
                let mut entry = entry;
                merge_stats(&mut entry.torrent_stats, &response.torrent_stats);
                if entry.num_pending <= 1 {
                    Some(
                        ScrapeResponse {
                            transaction_id: entry.transaction_id,
                            torrent_stats: assemble(&entry.torrent_stats, entry.num_hashes),
                        },
                    )
                } else {
                    entry.num_pending = entry.num_pending - 1;
                    let key = slab_insert(&mut self.slab, entry);
                    proof {
                        assert(key == response.slab_key);
                        assert(self@.dom() =~= old(self)@.dom());
                    }
                    None
                }
            },
        }
    }

    /// Forgets the scrapes whose answers the tracker no longer waits for at
    /// `now`.
    pub fn clean(&mut self, now: u64)
        ensures
            final(self)@ == old(self)@.restrict(
                Set::new(
                    |key: usize|
                        old(self)@.contains_key(key) && old(self)@[key].valid_until.is_live_at(now),
                ),
            ),
    {
        slab_retain_live(&mut self.slab, now);
        slab_shrink_to_fit(&mut self.slab);
    }
}

/// Every info hash of a split request is in the part of exactly one shard:
/// the shard that its first byte gives.
pub proof fn lemma_split_sends_each_hash_to_its_shard(
    parts: Seq<(SwarmWorkerIndex, PendingScrapeRequest)>,
    hashes: Seq<InfoHash>,
    swarm_workers: int,
    slab_key: usize,
    i: usize,
)
    requires
        swarm_workers > 0,
        is_split(parts, hashes, swarm_workers, slab_key),
        i < hashes.len(),
    ensures
        exists|a: int|
            0 <= a < parts.len() && (#[trigger] parts[a]).0.0 == shard_of(
                hashes[i as int],
                swarm_workers,
            ),
        forall|a: int|
            0 <= a < parts.len() ==> ((#[trigger] parts[a]).1.info_hashes@.contains_key(i) <==> parts[a].0.0
                == shard_of(hashes[i as int], swarm_workers)),
        forall|a: int|
            0 <= a < parts.len() && (#[trigger] parts[a]).1.info_hashes@.contains_key(i)
                ==> parts[a].1.info_hashes@[i] == hashes[i as int],
        forall|a: int, b: int|
            0 <= a < parts.len() && 0 <= b < parts.len() && (#[trigger] parts[a]).1.info_hashes@.contains_key(
                i,
            ) && (#[trigger] parts[b]).1.info_hashes@.contains_key(i) ==> a == b,
{
    let owner = shard_of(hashes[i as int], swarm_workers);
    assert(0 <= owner < swarm_workers);
    assert(shard_involved(hashes, swarm_workers, owner));
    assert forall|a: int, b: int|
        0 <= a < parts.len() && 0 <= b < parts.len() && (#[trigger] parts[a]).1.info_hashes@.contains_key(
            i,
        ) && (#[trigger] parts[b]).1.info_hashes@.contains_key(i) implies a == b by {
        if a < b {
            assert(parts[a].0.0 < parts[b].0.0);
        } else if b < a {
            assert(parts[b].0.0 < parts[a].0.0);
        }
    }
}

/// The answers of the shards put together, each later answer over those
/// before it.
pub open spec fn merged_answers(answers: Seq<Map<usize, TorrentScrapeStatistics>>) -> Map<
    usize,
    TorrentScrapeStatistics,
>
    decreases answers.len(),
{
    if answers.len() == 0 {
        Map::empty()
    } else {
        merged_answers(answers.drop_last()).union_prefer_right(answers.last())
    }
}

/// What is put together from answers holds at a position what the last
/// answer that holds the position holds there.
pub proof fn lemma_merged_answers(
    answers: Seq<Map<usize, TorrentScrapeStatistics>>,
    i: usize,
    a: int,
)
    requires
        0 <= a < answers.len(),
        answers[a].contains_key(i),
        forall|b: int| a < b < answers.len() ==> !(#[trigger] answers[b]).contains_key(i),
    ensures
        merged_answers(answers).contains_key(i),
        merged_answers(answers)[i] == answers[a][i],
    decreases answers.len(),
{
    let rest = answers.drop_last();
    if a < answers.len() - 1 {
        assert(!answers[answers.len() - 1].contains_key(i));
        assert(rest[a] == answers[a]);
        assert forall|b: int| a < b < rest.len() implies !(#[trigger] rest[b]).contains_key(i) by {
            assert(rest[b] == answers[b]);
        }
        lemma_merged_answers(rest, i, a);
    }
}

/// When every shard has answered its part of a split scrape, the answers
/// put together give the client one entry for each info hash of its
/// request, in the order of the request: at position `i` the entry that
/// the shard of the info hash `i` reported for it.
pub proof fn lemma_scrape_assembly(
    parts: Seq<(SwarmWorkerIndex, PendingScrapeRequest)>,
    hashes: Seq<InfoHash>,
    swarm_workers: int,
    slab_key: usize,
    answers: Seq<Map<usize, TorrentScrapeStatistics>>,
    i: usize,
)
    requires
        swarm_workers > 0,
        is_split(parts, hashes, swarm_workers, slab_key),
        answers.len() == parts.len(),
        forall|a: int|
            0 <= a < parts.len() ==> (#[trigger] answers[a]).dom() == parts[a].1.info_hashes@.dom(),
        i < hashes.len(),
    ensures
        assembled(merged_answers(answers), hashes.len()).len() == hashes.len(),
        exists|a: int|
            0 <= a < parts.len() && (#[trigger] parts[a]).0.0 == shard_of(
                hashes[i as int],
                swarm_workers,
            ) && answers[a].contains_key(i) && assembled(merged_answers(answers), hashes.len())[i as int]
                == answers[a][i],
{
    let out = assembled(merged_answers(answers), hashes.len());
    lemma_split_sends_each_hash_to_its_shard(parts, hashes, swarm_workers, slab_key, i);
    let a = choose|a: int|
        0 <= a < parts.len() && (#[trigger] parts[a]).0.0 == shard_of(
            hashes[i as int],
            swarm_workers,
        );
    assert(parts[a].1.info_hashes@.contains_key(i));
    assert(answers[a].dom().contains(i));
    assert forall|b: int| a < b < answers.len() implies !(#[trigger] answers[b]).contains_key(
        i,
    ) by {
        assert(answers[b].dom() == parts[b].1.info_hashes@.dom());
        if answers[b].contains_key(i) {
            assert(parts[b].1.info_hashes@.contains_key(i));
        }
    }
    lemma_merged_answers(answers, i, a);
    assert(out[i as int] == answers[a][i]);
}

} // verus!
