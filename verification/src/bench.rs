//! Scrape requests for a load test, made from numbers drawn beforehand.

use vstd::prelude::*;

use crate::common::{ConnectionId, InfoHash, TransactionId};
use crate::net::CanonicalSocketAddr;
use crate::protocol::types::ScrapeRequest;

verus! {

/// A connection id with the address it was issued to.
#[derive(Clone, Copy, Debug)]
pub struct ConnectionKey {
    pub connection_id: ConnectionId,
    pub socket_addr: CanonicalSocketAddr,
}

/// The position among `len` info hashes that a drawn number stands for: the
/// number itself, and the last position for a number beyond it.
pub open spec fn drawn_position(draw: usize, len: nat) -> int {
    if draw < len {
        draw as int
    } else {
        len - 1
    }
}

/// The info hashes at the drawn positions.
pub open spec fn drawn_hashes(info_hashes: Seq<InfoHash>, draws: Seq<usize>) -> Seq<InfoHash> {
    Seq::new(draws.len(), |k: int| info_hashes[drawn_position(draws[k], info_hashes.len())])
}

fn pick_hashes(info_hashes: &Vec<InfoHash>, draws: &Vec<usize>) -> (picked: Vec<InfoHash>)
    requires
        info_hashes@.len() > 0,
    ensures
        picked@ == drawn_hashes(info_hashes@, draws@),
{
    let mut picked: Vec<InfoHash> = Vec::new();
    let mut k: usize = 0;
    while k < draws.len()
        invariant
            k <= draws@.len(),
            info_hashes@.len() > 0,
            picked@ == drawn_hashes(info_hashes@, draws@.take(k as int)),
        decreases draws.len() - k,
    {
        let position = if draws[k] < info_hashes.len() {
            draws[k]
        } else {
            info_hashes.len() - 1
        };
        picked.push(info_hashes[position]);
        k += 1;
        assert(picked@ =~= drawn_hashes(info_hashes@, draws@.take(k as int)));
    }
    assert(draws@.take(draws@.len() as int) =~= draws@);
    picked
}

/// Makes `number` scrape requests. Request `i` comes from the address of
/// the connection `i` with its connection id, has the transaction id `i`
/// of those given, and asks for the info hashes at the positions of the
/// draw `i`; a drawn number beyond the last position stands for the last
/// position.
pub fn create_requests(
    info_hashes: &Vec<InfoHash>,
    connection_keys: &Vec<ConnectionKey>,
    number: usize,
    draws: &Vec<Vec<usize>>,
    transaction_ids: &Vec<u32>,
) -> (requests: Vec<(ScrapeRequest, CanonicalSocketAddr)>)
    requires
        info_hashes@.len() > 0,
        number <= connection_keys@.len(),
        number <= draws@.len(),
        number <= transaction_ids@.len(),
    ensures
        requests@.len() == number,
        forall|i: int|
            0 <= i < number ==> {
                &&& (#[trigger] requests@[i]).0.connection_id == connection_keys@[i].connection_id
                &&& requests@[i].1 == connection_keys@[i].socket_addr
                &&& requests@[i].0.transaction_id == TransactionId(transaction_ids@[i])
                &&& requests@[i].0.info_hashes@ == drawn_hashes(info_hashes@, draws@[i]@)
            },
{
    let mut requests: Vec<(ScrapeRequest, CanonicalSocketAddr)> = Vec::new();
    let mut i: usize = 0;
    while i < number
        invariant
            i <= number,
            number <= connection_keys@.len(),
            number <= draws@.len(),
            number <= transaction_ids@.len(),
            info_hashes@.len() > 0,
            requests@.len() == i,
            forall|a: int|
                0 <= a < i ==> {
                    &&& (#[trigger] requests@[a]).0.connection_id
                        == connection_keys@[a].connection_id
                    &&& requests@[a].1 == connection_keys@[a].socket_addr
                    &&& requests@[a].0.transaction_id == TransactionId(transaction_ids@[a])
                    &&& requests@[a].0.info_hashes@ == drawn_hashes(info_hashes@, draws@[a]@)
                },
        decreases number - i,
    {
        let request_info_hashes = pick_hashes(info_hashes, &draws[i]);
        let request = ScrapeRequest {
            connection_id: connection_keys[i].connection_id,
            transaction_id: TransactionId(transaction_ids[i]),
            info_hashes: request_info_hashes,
        };
        requests.push((request, connection_keys[i].socket_addr));
        i += 1;
    }
    requests
}

} // verus!
