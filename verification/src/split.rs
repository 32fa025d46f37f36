//! A list of info hashes split by the shards that own them.

use vstd::prelude::*;

use crate::common::{shard_of, InfoHash, SwarmWorkerIndex};
use crate::config::Config;

verus! {

/// Whether the shard `worker` owns an info hash of the request.
pub open spec fn shard_involved(hashes: Seq<InfoHash>, swarm_workers: int, worker: int) -> bool {
    exists|i: int| 0 <= i < hashes.len() && shard_of(#[trigger] hashes[i], swarm_workers) == worker
}

/// The positions of the request whose info hashes the shard `worker` owns,
/// from the first to the last.
pub open spec fn shard_positions(hashes: Seq<InfoHash>, swarm_workers: int, worker: int) -> Seq<
    usize,
>
    decreases hashes.len(),
{
    if hashes.len() == 0 {
        Seq::empty()
    } else {
        let before = shard_positions(hashes.drop_last(), swarm_workers, worker);
        if shard_of(hashes.last(), swarm_workers) == worker {
            before.push((hashes.len() - 1) as usize)
        } else {
            before
        }
    }
}

/// Whether an info hash belongs to the shard `worker`.
pub open spec fn owned_by(swarm_workers: int, worker: int) -> spec_fn(InfoHash) -> bool {
    |h: InfoHash| shard_of(h, swarm_workers) == worker
}

/// The info hashes at the given positions of the request.
pub open spec fn hashes_at(hashes: Seq<InfoHash>, positions: Seq<usize>) -> Seq<InfoHash> {
    positions.map_values(|p: usize| hashes[p as int])
}

/// The positions of a shard are positions of the request, they rise, and
/// they are exactly those whose info hash the shard owns.
pub proof fn lemma_shard_positions(hashes: Seq<InfoHash>, swarm_workers: int, worker: int)
    requires
        hashes.len() <= usize::MAX,
    ensures
        forall|k: int|
            0 <= k < shard_positions(hashes, swarm_workers, worker).len() ==> (
            #[trigger] shard_positions(hashes, swarm_workers, worker)[k]) < hashes.len() && shard_of(
                hashes[shard_positions(hashes, swarm_workers, worker)[k] as int],
                swarm_workers,
            ) == worker,
        forall|a: int, b: int|
            0 <= a < b < shard_positions(hashes, swarm_workers, worker).len() ==> (
            #[trigger] shard_positions(hashes, swarm_workers, worker)[a]) < (
            #[trigger] shard_positions(hashes, swarm_workers, worker)[b]),
        forall|i: int|
            0 <= i < hashes.len() && shard_of(#[trigger] hashes[i], swarm_workers) == worker
                ==> shard_positions(hashes, swarm_workers, worker).contains(i as usize),
        (shard_positions(hashes, swarm_workers, worker).len() > 0) == shard_involved(
            hashes,
            swarm_workers,
            worker,
        ),
    decreases hashes.len(),
{
    let positions = shard_positions(hashes, swarm_workers, worker);
    if hashes.len() > 0 {
        let rest = hashes.drop_last();
        let before = shard_positions(rest, swarm_workers, worker);
        let last = (hashes.len() - 1) as usize;
        lemma_shard_positions(rest, swarm_workers, worker);
        assert forall|k: int| 0 <= k < positions.len() implies (#[trigger] positions[k])
            < hashes.len() && shard_of(hashes[positions[k] as int], swarm_workers) == worker by {
            if k < before.len() {
                assert(before[k] < rest.len());
                assert(rest[before[k] as int] == hashes[before[k] as int]);
            }
        }
        assert forall|a: int, b: int| 0 <= a < b < positions.len() implies (
        #[trigger] positions[a]) < (#[trigger] positions[b]) by {
            assert(before[a] < rest.len());
            if b < before.len() {
                assert(before[a] < before[b]);
            }
        }
        assert forall|i: int|
            0 <= i < hashes.len() && shard_of(
                #[trigger] hashes[i],
                swarm_workers,
            ) == worker implies positions.contains(i as usize) by {
            if i < rest.len() {
                assert(shard_of(rest[i], swarm_workers) == worker);
                let k = choose|k: int| 0 <= k < before.len() && before[k] == i as usize;
                assert(positions[k] == i as usize);
            } else {
                assert(positions[positions.len() - 1] == last);
            }
        }
        if shard_involved(hashes, swarm_workers, worker) {
            let i = choose|i: int|
                0 <= i < hashes.len() && shard_of(#[trigger] hashes[i], swarm_workers) == worker;
            assert(positions.contains(i as usize));
        }
        if positions.len() > 0 {
            assert(shard_of(hashes[positions[0] as int], swarm_workers) == worker);
        }
    }
}

/// The info hashes at the positions of a shard are the info hashes of the
/// request that the shard owns, in the order of the request.
pub proof fn lemma_hashes_of_shard(hashes: Seq<InfoHash>, swarm_workers: int, worker: int)
    requires
        hashes.len() <= usize::MAX,
    ensures
        hashes_at(hashes, shard_positions(hashes, swarm_workers, worker)) == hashes.filter(
            owned_by(swarm_workers, worker),
        ),
    decreases hashes.len(),
{
    reveal(Seq::filter);
    let positions = shard_positions(hashes, swarm_workers, worker);
    if hashes.len() > 0 {
        let rest = hashes.drop_last();
        let before = shard_positions(rest, swarm_workers, worker);
        lemma_hashes_of_shard(rest, swarm_workers, worker);
        lemma_shard_positions(rest, swarm_workers, worker);
        assert forall|k: int| 0 <= k < before.len() implies hashes_at(hashes, before)[k]
            == hashes_at(rest, before)[k] by {
            assert(before[k] < rest.len());
        }
        assert(hashes_at(hashes, before) =~= hashes_at(rest, before));
        if shard_of(hashes.last(), swarm_workers) == worker {
            assert(hashes_at(hashes, positions) =~= hashes_at(hashes, before).push(hashes.last()));
        }
    } else {
        assert(hashes_at(hashes, positions) =~= Seq::<InfoHash>::empty());
    }
}

/// Whether `groups` is the request `hashes` split by shard: one group for
/// each shard that owns an info hash of the request, in the order of the
/// shards, each with the positions of the info hashes of its shard.
pub open spec fn is_position_split(
    groups: Seq<(SwarmWorkerIndex, Vec<usize>)>,
    hashes: Seq<InfoHash>,
    swarm_workers: int,
) -> bool {
    &&& forall|a: int|
        0 <= a < groups.len() ==> {
            &&& 0 <= (#[trigger] groups[a]).0.0 < swarm_workers
            &&& groups[a].1@ == shard_positions(hashes, swarm_workers, groups[a].0.0 as int)
            &&& shard_involved(hashes, swarm_workers, groups[a].0.0 as int)
        }
    &&& forall|a: int, b: int|
        0 <= a < b < groups.len() ==> (#[trigger] groups[a]).0.0 < (#[trigger] groups[b]).0.0
    &&& forall|w: int|
        0 <= w < swarm_workers && #[trigger] shard_involved(hashes, swarm_workers, w)
            ==> exists|a: int| 0 <= a < groups.len() && (#[trigger] groups[a]).0.0 == w
}

/// The positions of the request whose info hashes the shard `worker` owns.
pub fn positions_of_shard(hashes: &Vec<InfoHash>, config: &Config, worker: usize) -> (positions:
    Vec<usize>)
    requires
        config.swarm_workers > 0,
    ensures
        positions@ == shard_positions(hashes@, config.swarm_workers as int, worker as int),
{
    let mut positions: Vec<usize> = Vec::new();
    let mut i: usize = 0;
    let ghost workers = config.swarm_workers as int;
    assert(hashes@.take(0) =~= Seq::<InfoHash>::empty());
    while i < hashes.len()
        invariant
            i <= hashes.len(),
            workers == config.swarm_workers,
            workers > 0,
            positions@ == shard_positions(hashes@.take(i as int), workers, worker as int),
        decreases hashes.len() - i,
    {
        let owner = SwarmWorkerIndex::from_info_hash(config, hashes[i]);
        proof {
            let next = hashes@.take(i + 1);
            assert(next.drop_last() =~= hashes@.take(i as int));
            assert(next.last() == hashes@[i as int]);
        }
        if owner.0 == worker {
            positions.push(i);
        }
        i += 1;
    }
    assert(hashes@.take(hashes@.len() as int) =~= hashes@);
    positions
}

/// Splits a request by shard: for each shard that owns one of its info
/// hashes, in the order of the shards, the positions of the info hashes of
/// that shard.
pub fn split_by_shard(hashes: &Vec<InfoHash>, config: &Config) -> (groups: Vec<
    (SwarmWorkerIndex, Vec<usize>),
>)
    requires
        config.swarm_workers > 0,
    ensures
        is_position_split(groups@, hashes@, config.swarm_workers as int),
        hashes@.len() > 0 ==> groups@.len() > 0,
{
    let ghost workers = config.swarm_workers as int;
    let mut groups: Vec<(SwarmWorkerIndex, Vec<usize>)> = Vec::new();
    let mut worker: usize = 0;
    let total = hashes.len();
    while worker < config.swarm_workers
        invariant
            worker <= config.swarm_workers,
            workers == config.swarm_workers,
            workers > 0,
            total == hashes@.len(),
            forall|a: int|
                0 <= a < groups@.len() ==> {
                    &&& 0 <= (#[trigger] groups@[a]).0.0 < worker
                    &&& groups@[a].1@ == shard_positions(hashes@, workers, groups@[a].0.0 as int)
                    &&& shard_involved(hashes@, workers, groups@[a].0.0 as int)
                },
            forall|a: int, b: int|
                0 <= a < b < groups@.len() ==> (#[trigger] groups@[a]).0.0 < (
                #[trigger] groups@[b]).0.0,
            forall|w: int|
                0 <= w < worker && #[trigger] shard_involved(hashes@, workers, w) ==> exists|
                    a: int,
                | 0 <= a < groups@.len() && (#[trigger] groups@[a]).0.0 == w,
        decreases config.swarm_workers - worker,
    {
        let positions = positions_of_shard(hashes, config, worker);
        proof {
            lemma_shard_positions(hashes@, workers, worker as int);
        }
        if positions.len() > 0 {
            let ghost before = groups@;
            groups.push((SwarmWorkerIndex(worker), positions));
            proof {
                assert forall|w: int|
                    0 <= w <= worker && #[trigger] shard_involved(
                        hashes@,
                        workers,
                        w,
                    ) implies exists|a: int|
                    0 <= a < groups@.len() && (#[trigger] groups@[a]).0.0 == w by {
                    if w < worker {
                        let a = choose|a: int|
                            0 <= a < before.len() && (#[trigger] before[a]).0.0 == w;
                        assert(groups@[a].0.0 == w);
                    } else {
                        assert(groups@[before.len() as int].0.0 == w);
                    }
                }
            }
        }
        worker += 1;
    }
    proof {
        if hashes@.len() > 0 {
            let first = shard_of(hashes@[0], workers);
            assert(shard_involved(hashes@, workers, first));
        }
    }
    groups
}

} // verus!
