//! What the WebSocket front end decides for a message of a client, and how
//! it puts the answer to a scrape together from the answers of the swarm
//! workers.

use hashbrown::HashMap;
use vstd::prelude::*;

use crate::access_list::{allowed, AccessList};
use crate::common::{shard_of, InfoHash};
use crate::config::Config;
use crate::net::{convert_ipv4_mapped_ipv6, IpAddr};
use crate::split::{
    hashes_at, is_position_split, lemma_hashes_of_shard, lemma_shard_positions, owned_by,
    shard_involved, split_by_shard,
};

verus! {

/// What a scrape over WebSocket reports of one torrent.
#[derive(Clone, Copy, Debug, PartialEq, Eq, Structural)]
pub struct ScrapeStatistics {
    pub complete: usize,
    pub incomplete: usize,
    pub downloaded: usize,
}

/// The statistics of torrents by info hash, kept in a hash map of the
/// `hashbrown` crate.
#[verifier::external_body]
pub struct ScrapeFiles {
    map: HashMap<InfoHash, ScrapeStatistics>,
}

/// The statistics that the map holds, each under its info hash.
pub uninterp spec fn files_of(files: ScrapeFiles) -> Map<InfoHash, ScrapeStatistics>;

impl View for ScrapeFiles {
    type V = Map<InfoHash, ScrapeStatistics>;

    open spec fn view(&self) -> Map<InfoHash, ScrapeStatistics> {
        files_of(*self)
    }
}

/// `HashMap::new`: a map that holds nothing.
#[verifier::external_body]
fn files_new() -> (files: ScrapeFiles)
    ensures
        files_of(files) =~= Map::empty(),
{
    ScrapeFiles { map: HashMap::new() }
}

/// `HashMap::insert`: puts the statistics under the info hash, in place of
/// those that were there, and leaves every other entry as it was. Info
/// hashes are the same key when their bytes are the same.
#[verifier::external_body]
fn files_insert(files: &mut ScrapeFiles, info_hash: InfoHash, statistics: ScrapeStatistics)
    ensures
        files_of(*final(files)) == files_of(*old(files)).insert(info_hash, statistics),
{
    files.map.insert(info_hash, statistics);
}

/// `HashMap::get`: the statistics under the info hash, where there are
/// any.
#[verifier::external_body]
fn files_get(files: &ScrapeFiles, info_hash: &InfoHash) -> (found: Option<ScrapeStatistics>)
    ensures
        found is Some == files_of(*files).contains_key(*info_hash),
        found matches Some(statistics) ==> statistics == files_of(*files)[*info_hash],
{
    files.map.get(info_hash).copied()
}

/// `HashMap::len`: the number of entries.
#[verifier::external_body]
fn files_len(files: &ScrapeFiles) -> (n: usize)
    ensures
        n == files_of(*files).len(),
{
    files.map.len()
}

/// `Extend::extend` with the entries of another map: each of them is put
/// into this map, in place of what was there under its info hash.
#[verifier::external_body]
fn files_extend(files: &mut ScrapeFiles, more: ScrapeFiles)
    ensures
        files_of(*final(files)) == files_of(*old(files)).union_prefer_right(files_of(more)),
{
    files.map.extend(more.map);
}

impl ScrapeFiles {
    pub fn new() -> (files: ScrapeFiles)
        ensures
            files@ == Map::<InfoHash, ScrapeStatistics>::empty(),
    {
        files_new()
    }

    /// Puts the statistics of a torrent into the map.
    pub fn insert(&mut self, info_hash: InfoHash, statistics: ScrapeStatistics)
        ensures
            final(self)@ == old(self)@.insert(info_hash, statistics),
    {
        files_insert(self, info_hash, statistics)
    }

    /// The statistics of a torrent, where the map has any.
    pub fn get(&self, info_hash: &InfoHash) -> (found: Option<ScrapeStatistics>)
        ensures
            found is Some == self@.contains_key(*info_hash),
            found matches Some(statistics) ==> statistics == self@[*info_hash],
    {
        files_get(self, info_hash)
    }

    /// Number of torrents in the map.
    pub fn len(&self) -> (n: usize)
        ensures
            n == self@.len(),
    {
        files_len(self)
    }
}

/// Which part of a message an error response answers.
#[derive(Clone, Copy, Debug, PartialEq, Eq, Structural)]
pub enum ErrorResponseAction {
    Announce,
    Scrape,
}

/// An error, as it is sent to a client.
#[derive(Clone, Debug, PartialEq, Eq)]
pub struct ErrorResponse {
    pub action: Option<ErrorResponseAction>,
    pub failure_reason: String,
    pub info_hash: Option<InfoHash>,
}

/// The answer to a scrape, as it is sent to a client.
pub struct ScrapeResponse {
    pub files: ScrapeFiles,
}

/// Number of a connection among those of one socket worker.
#[derive(Clone, Copy, Debug, PartialEq, Eq, Hash, Structural)]
pub struct ConnectionId(pub usize);

/// Number of the socket worker that answers come back to.
#[derive(Clone, Copy, Debug, PartialEq, Eq, Hash, Structural)]
pub struct ConsumerId(pub usize);

/// Number of a scrape among those that a connection waits for.
#[derive(Clone, Copy, Debug, PartialEq, Eq, Hash, Structural)]
pub struct PendingScrapeId(pub usize);

/// What travels with every message between the workers: whose message it
/// is, and where the answer goes.
#[derive(Clone, Copy, Debug)]
pub struct ConnectionMeta {
    pub connection_id: ConnectionId,
    pub out_message_consumer_id: ConsumerId,
    /// The address of the client as the socket has it.
    pub naive_peer_addr: (IpAddr, u16),
    /// The address of the client with an IPv4-mapped IPv6 address mapped
    /// down to IPv4.
    pub converted_peer_ip: IpAddr,
    pub pending_scrape_id: Option<PendingScrapeId>,
}

/// What goes with a message of the connection `connection_id` whose client
/// is at `peer_addr`.
pub fn make_connection_meta(
    connection_id: ConnectionId,
    out_message_consumer_id: ConsumerId,
    peer_addr: (IpAddr, u16),
    pending_scrape_id: Option<PendingScrapeId>,
) -> (meta: ConnectionMeta)
    ensures
        meta == (ConnectionMeta {
            connection_id,
            out_message_consumer_id,
            naive_peer_addr: peer_addr,
            converted_peer_ip: peer_addr.0.canonical(),
            pending_scrape_id,
        }),
{
    ConnectionMeta {
        connection_id,
        out_message_consumer_id,
        naive_peer_addr: peer_addr,
        converted_peer_ip: convert_ipv4_mapped_ipv6(peer_addr.0),
        pending_scrape_id,
    }
}

/// Whether a message that came back for a connection belongs to the client
/// at `peer_addr`.
pub fn is_for_peer(meta: &ConnectionMeta, peer_addr: &(IpAddr, u16)) -> (r: bool)
    ensures
        r == (meta.naive_peer_addr == *peer_addr),
{
    meta.naive_peer_addr.0.same(&peer_addr.0) && meta.naive_peer_addr.1 == peer_addr.1
}

/// The swarm worker that owns `info_hash`.
pub fn calculate_in_message_consumer_index(config: &Config, info_hash: InfoHash) -> (index: usize)
    requires
        config.swarm_workers > 0,
    ensures
        index == shard_of(info_hash, config.swarm_workers as int),
        index < config.swarm_workers,
{
    let first: u8 = info_hash.0[0];
    first as usize % config.swarm_workers
}

pub open spec fn not_allowed_reason() -> Seq<char> {
    "Info hash not allowed"@
}

pub open spec fn full_scrape_reason() -> Seq<char> {
    "Full scrapes are not allowed"@
}

/// An error response with the given reason. As the front end does not tell
/// the two apart, every error response names the scrape as its action.
pub fn error_response(failure_reason: &str, info_hash: Option<InfoHash>) -> (response:
    ErrorResponse)
    ensures
        response.action == Some(ErrorResponseAction::Scrape),
        response.failure_reason@ == failure_reason@,
        response.info_hash == info_hash,
{
    ErrorResponse {
        action: Some(ErrorResponseAction::Scrape),
        failure_reason: failure_reason.to_owned(),
        info_hash,
    }
}

pub open spec fn parse_error_reason() -> Seq<char> {
    "Parse error"@
}

/// The error response to a message that holds no request.
pub fn parse_error_response() -> (response: ErrorResponse)
    ensures
        response.action == Some(ErrorResponseAction::Scrape),
        response.failure_reason@ == parse_error_reason(),
        response.info_hash is None,
{
    error_response("Parse error", None)
}

/// What is to be done with an announce.
#[derive(Debug)]
pub enum AnnouncePlan {
    /// Hand it to this swarm worker.
    Forward(usize),
    /// Answer with this error.
    Refuse(ErrorResponse),
}

/// What is to be done with an announce of the torrent `info_hash`: it goes
/// to the swarm worker that owns the torrent if the access list allows the
/// torrent, and is answered with an error if not.
pub fn plan_announce(config: &Config, access_list: &AccessList, info_hash: InfoHash) -> (plan:
    AnnouncePlan)
    requires
        config.swarm_workers > 0,
    ensures
        allowed(access_list@, config.access_list.mode, info_hash) ==> plan
            == AnnouncePlan::Forward(shard_of(info_hash, config.swarm_workers as int) as usize),
        !allowed(access_list@, config.access_list.mode, info_hash) ==> {
            &&& plan matches AnnouncePlan::Refuse(e)
            &&& e.action == Some(ErrorResponseAction::Scrape)
            &&& e.failure_reason@ == not_allowed_reason()
            &&& e.info_hash == Some(info_hash)
        },
{
    if access_list.allows(config.access_list.mode, &info_hash) {
        AnnouncePlan::Forward(calculate_in_message_consumer_index(config, info_hash))
    } else {
        AnnouncePlan::Refuse(error_response("Info hash not allowed", Some(info_hash)))
    }
}

/// What is to be done with a scrape.
#[derive(Debug)]
pub enum ScrapePlan {
    /// Hand each swarm worker its info hashes, and wait for as many
    /// answers as there are parts.
    Forward(Vec<(usize, Vec<InfoHash>)>),
    /// Answer with this error.
    Refuse(ErrorResponse),
}

/// Whether `parts` is the scrape of `hashes` split by shard: one part for
/// each shard that owns one of the info hashes, in the order of the shards,
/// each with the info hashes of its shard in the order of the request.
pub open spec fn is_scrape_split(
    parts: Seq<(usize, Vec<InfoHash>)>,
    hashes: Seq<InfoHash>,
    swarm_workers: int,
) -> bool {
    &&& forall|a: int|
        0 <= a < parts.len() ==> {
            &&& 0 <= (#[trigger] parts[a]).0 < swarm_workers
            &&& parts[a].1@ == hashes.filter(owned_by(swarm_workers, parts[a].0 as int))
            &&& shard_involved(hashes, swarm_workers, parts[a].0 as int)
        }
    &&& forall|a: int, b: int|
        0 <= a < b < parts.len() ==> (#[trigger] parts[a]).0 < (#[trigger] parts[b]).0
    &&& forall|w: int|
        0 <= w < swarm_workers && #[trigger] shard_involved(hashes, swarm_workers, w)
            ==> exists|a: int| 0 <= a < parts.len() && (#[trigger] parts[a]).0 == w
}

/// The info hashes at the given positions of the request.
fn group_of(hashes: &Vec<InfoHash>, positions: &Vec<usize>) -> (group: Vec<InfoHash>)
    requires
        forall|k: int| 0 <= k < positions@.len() ==> (#[trigger] positions@[k]) < hashes@.len(),
    ensures
        group@ == hashes_at(hashes@, positions@),
{
    let mut group: Vec<InfoHash> = Vec::new();
    let mut k: usize = 0;
    while k < positions.len()
        invariant
            k <= positions@.len(),
            forall|j: int| 0 <= j < positions@.len() ==> (#[trigger] positions@[j]) < hashes@.len(),
            group@ == hashes_at(hashes@, positions@.take(k as int)),
        decreases positions.len() - k,
    {
        group.push(hashes[positions[k]]);
        k += 1;
        assert(group@ =~= hashes_at(hashes@, positions@.take(k as int)));
    }
    assert(positions@.take(positions@.len() as int) =~= positions@);
    group
}

/// What is to be done with a scrape of `info_hashes`.
///
/// A scrape that names no info hash asks for all torrents; that is refused
/// with an error, and no swarm worker hears of it. Any other scrape is
/// split by shard.
pub fn plan_scrape(config: &Config, info_hashes: Option<Vec<InfoHash>>) -> (plan: ScrapePlan)
    requires
        config.swarm_workers > 0,
    ensures
        (info_hashes is None || info_hashes->Some_0@.len() == 0) ==> {
            &&& plan matches ScrapePlan::Refuse(e)
            &&& e.action == Some(ErrorResponseAction::Scrape)
            &&& e.failure_reason@ == full_scrape_reason()
            &&& e.info_hash is None
        },
        info_hashes matches Some(hashes) ==> (hashes@.len() > 0 ==> {
            &&& plan matches ScrapePlan::Forward(parts)
            &&& parts@.len() > 0
            &&& is_scrape_split(parts@, hashes@, config.swarm_workers as int)
        }),
{
    let hashes = match info_hashes {
        Some(hashes) => hashes,
        None => {
            return ScrapePlan::Refuse(error_response("Full scrapes are not allowed", None));
        },
    };
    if hashes.len() == 0 {
        return ScrapePlan::Refuse(error_response("Full scrapes are not allowed", None));
    }
    let ghost workers = config.swarm_workers as int;
    let total = hashes.len();
    let groups = split_by_shard(&hashes, config);
    let mut parts: Vec<(usize, Vec<InfoHash>)> = Vec::new();
    let ghost groups_seq = groups@;
    for group in it: groups
        invariant
            it.seq() == groups_seq,
            total == hashes@.len(),
            is_position_split(groups_seq, hashes@, workers),
            parts@.len() == it.index(),
            forall|a: int|
                0 <= a < parts@.len() ==> {
                    &&& (#[trigger] parts@[a]).0 == groups_seq[a].0.0
                    &&& parts@[a].1@ == hashes@.filter(owned_by(workers, groups_seq[a].0.0 as int))
                },
    {
        let (index, positions) = group;
        proof {
            assert(groups_seq[it.index() as int].1@ == positions@);
            lemma_shard_positions(hashes@, workers, index.0 as int);
            lemma_hashes_of_shard(hashes@, workers, index.0 as int);
        }
        let info_hashes = group_of(&hashes, &positions);
        parts.push((index.0, info_hashes));
    }
    proof {
        assert forall|w: int|
            0 <= w < workers && #[trigger] shard_involved(hashes@, workers, w) implies exists|
            a: int,
        | 0 <= a < parts@.len() && (#[trigger] parts@[a]).0 == w by {
            let a = choose|a: int|
                0 <= a < groups_seq.len() && (#[trigger] groups_seq[a]).0.0 == w;
            assert(parts@[a].0 == w);
        }
        assert(is_scrape_split(parts@, hashes@, workers));
    }
    ScrapePlan::Forward(parts)
}

/// A scrape whose answer is not complete yet.
pub struct PendingScrapeResponse {
    /// Number of swarm workers that have not answered yet.
    pub pending_worker_out_messages: usize,
    /// The statistics that came in so far.
    pub stats: ScrapeFiles,
}

impl PendingScrapeResponse {
    /// A scrape that waits for the answers of `pending_worker_out_messages`
    /// swarm workers.
    pub fn new(pending_worker_out_messages: usize) -> (pending: Self)
        ensures
            pending.pending_worker_out_messages == pending_worker_out_messages,
            pending.stats@ == Map::<InfoHash, ScrapeStatistics>::empty(),
    {
        PendingScrapeResponse { pending_worker_out_messages, stats: ScrapeFiles::new() }
    }

    /// Takes in the answer of one swarm worker. Returns whether it was the
    /// last one that was waited for.
    pub fn add_worker_response(&mut self, response: ScrapeResponse) -> (finished: bool)
        ensures
            final(self).stats@ == old(self).stats@.union_prefer_right(response.files@),
            final(self).pending_worker_out_messages == if old(self).pending_worker_out_messages
                == 0 {
                0
            } else {
                (old(self).pending_worker_out_messages - 1) as usize
            },
            finished == (final(self).pending_worker_out_messages == 0),
    {
        files_extend(&mut self.stats, response.files);
        if self.pending_worker_out_messages > 0 {
            self.pending_worker_out_messages = self.pending_worker_out_messages - 1;
        }
        self.pending_worker_out_messages == 0
    }

    /// The complete answer.
    pub fn into_response(self) -> (response: ScrapeResponse)
        ensures
            response.files@ == self.stats@,
    {
        ScrapeResponse { files: self.stats }
    }
}

/// Why a connection cannot go on with a message that came back for it.
#[derive(Clone, Copy, Debug, PartialEq, Eq, Structural)]
pub enum WriterError {
    /// The message belongs to a client at another address.
    PeerMismatch,
    /// The connection does not wait for the scrape that the answer
    /// belongs to.
    NotFound,
}

/// What is to be done with a message that came back for a connection.
#[derive(Clone, Copy, Debug, PartialEq, Eq, Structural)]
pub enum WriterAction {
    /// Give the connection up.
    Fail(WriterError),
    /// Send nothing yet: other swarm workers have still to answer.
    Wait,
    /// Forget the scrape and send what came in for it as one answer.
    Finish,
    /// Send the message as it is.
    Forward,
}

pub open spec fn peer_mismatch_reason() -> Seq<char> {
    "peer addresses didn't match"@
}

pub open spec fn not_found_reason() -> Seq<char> {
    "pending scrape not found in slab"@
}

impl WriterError {
    /// The error in words.
    pub fn reason(&self) -> (text: &'static str)
        ensures
            text@ == match *self {
                WriterError::PeerMismatch => peer_mismatch_reason(),
                WriterError::NotFound => not_found_reason(),
            },
    {
        match self {
            WriterError::PeerMismatch => "peer addresses didn't match",
            WriterError::NotFound => "pending scrape not found in slab",
        }
    }
}

/// The number of answers that a scrape waits for once one more came in.
pub open spec fn one_less(pending: usize) -> usize {
    if pending == 0 {
        0
    } else {
        (pending - 1) as usize
    }
}

/// What the writer of a connection to the client at `peer_addr` does with a
/// message that came back with `meta`. `answer` is the message where it is
/// a swarm worker's answer to a scrape, and `found` is the scrape that this
/// answer belongs to, where the connection waits for it.
///
/// A message for a client at another address ends the connection, and so
/// does an answer to a scrape that the connection does not wait for; neither
/// changes anything. An answer to a scrape that is waited for is taken in;
/// it finishes the scrape if no other is awaited. Any other message goes
/// out as it is.
pub fn plan_out_message(
    found: Option<&mut PendingScrapeResponse>,
    meta: &ConnectionMeta,
    peer_addr: &(IpAddr, u16),
    answer: Option<ScrapeResponse>,
) -> (action: WriterAction)
    ensures
        meta.naive_peer_addr != *peer_addr ==> action == WriterAction::Fail(
            WriterError::PeerMismatch,
        ),
        meta.naive_peer_addr == *peer_addr && answer is None ==> action == WriterAction::Forward,
        meta.naive_peer_addr == *peer_addr && answer is Some && found is None ==> action
            == WriterAction::Fail(WriterError::NotFound),
        found matches Some(pending) ==> (if meta.naive_peer_addr == *peer_addr && answer is Some {
            &&& final(pending).stats@ == pending.stats@.union_prefer_right(answer->Some_0.files@)
            &&& final(pending).pending_worker_out_messages == one_less(
                pending.pending_worker_out_messages,
            )
            &&& action == if one_less(pending.pending_worker_out_messages) == 0 {
                WriterAction::Finish
            } else {
                WriterAction::Wait
            }
        } else {
            *final(pending) == *pending
        }),
{
    if !is_for_peer(meta, peer_addr) {
        return WriterAction::Fail(WriterError::PeerMismatch);
    }
    match answer {
        None => WriterAction::Forward,
        Some(response) => match found {
            None => WriterAction::Fail(WriterError::NotFound),
            Some(pending) => {
                if pending.add_worker_response(response) {
                    WriterAction::Finish
                } else {
                    WriterAction::Wait
                }
            },
        },
    }
}

} // verus!
