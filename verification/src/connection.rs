//! Connection ids: issued to a client on connect, and verified on every
//! announce and scrape, so that a request with a forged source address gets
//! no answer.

use rand::rngs::SmallRng;
use std::collections::HashMap;
use vstd::prelude::*;
use vstd::std_specs::hash::spec_hash_map_iter;
use vstd::std_specs::iter::IteratorSpec;

use crate::common::{ConnectionId, ValidUntil};
use crate::net::IpAddr;
use crate::random::random_u64;

verus! {

/// The address a connection id was issued to, and how long it is honoured.
#[derive(Clone, Copy, Debug)]
pub struct ConnectionBinding {
    pub ip: IpAddr,
    pub valid_until: ValidUntil,
}

/// Whether the bindings `m` let a request from `ip` pass that presents
/// `connection_id` at `now`: the id was issued to that address, and its
/// time is not over.
pub open spec fn accepts(
    m: Map<u64, ConnectionBinding>,
    connection_id: ConnectionId,
    ip: IpAddr,
    now: u64,
) -> bool {
    &&& m.contains_key(connection_id.0)
    &&& m[connection_id.0].ip == ip
    &&& now <= m[connection_id.0].valid_until.0
}

/// The bindings that are not yet over at `now`.
pub open spec fn unexpired(m: Map<u64, ConnectionBinding>, now: u64) -> Map<
    u64,
    ConnectionBinding,
> {
    m.restrict(Set::new(|id: u64| m.contains_key(id) && now <= m[id].valid_until.0))
}

/// The connection ids that one socket worker has issued and still honours.
pub struct ConnectionValidator {
    pub connections: HashMap<u64, ConnectionBinding>,
}

impl View for ConnectionValidator {
    type V = Map<u64, ConnectionBinding>;

    open spec fn view(&self) -> Map<u64, ConnectionBinding> {
        self.connections@
    }
}

impl ConnectionValidator {
    pub fn new() -> (validator: ConnectionValidator)
        ensures
            validator@ == Map::<u64, ConnectionBinding>::empty(),
    {
        ConnectionValidator { connections: HashMap::new() }
    }

    /// Number of connection ids that are kept.
    pub fn len(&self) -> (n: usize)
        ensures
            n == self@.len(),
    {
        self.connections.len()
    }

    /// Binds `connection_id` to the address `ip` until `valid_until`. An
    /// address that held the same id before loses it.
    pub fn insert(&mut self, connection_id: ConnectionId, ip: IpAddr, valid_until: ValidUntil)
        ensures
            final(self)@ == old(self)@.insert(
                connection_id.0,
                ConnectionBinding { ip, valid_until },
            ),
    {
        self.connections.insert(connection_id.0, ConnectionBinding { ip, valid_until });
    }

    /// Issues a connection id for a client at `ip`, honoured for `max_age`
    /// seconds from `now`. The id is drawn from `rng`.
    pub fn issue(&mut self, rng: &mut SmallRng, ip: IpAddr, now: u64, max_age: u64) -> (issued: (
        ConnectionId,
        ValidUntil,
    ))
        ensures
            issued.1.0 == ValidUntil::deadline(now, max_age),
            final(self)@ == old(self)@.insert(
                issued.0.0,
                ConnectionBinding { ip, valid_until: issued.1 },
            ),
            accepts(final(self)@, issued.0, ip, now),
            forall|other: IpAddr, at: u64|
                other != ip ==> !accepts(final(self)@, issued.0, other, at),
    {
        let connection_id = ConnectionId(random_u64(rng));
        let valid_until = ValidUntil::new(now, max_age);
        self.insert(connection_id, ip, valid_until);
        (connection_id, valid_until)
    }

    /// Whether a request from `ip` that presents `connection_id` at `now`
    /// is to be served.
    pub fn verify(&self, connection_id: ConnectionId, ip: IpAddr, now: u64) -> (r: bool)
        ensures
            r == accepts(self@, connection_id, ip, now),
    {
        match self.connections.get(&connection_id.0) {
            Some(binding) => binding.ip.same(&ip) && now <= binding.valid_until.0,
            None => false,
        }
    }

    /// Forgets the connection ids whose time is over at `now`.
    pub fn clean(&mut self, now: u64)
        ensures
            final(self)@ == unexpired(old(self)@, now),
    {
        let ghost before = self@;
        let mut expired: Vec<u64> = Vec::new();
        for kv in it: self.connections.iter()
            invariant
                self@ == before,
                forall|j: int|
                    0 <= j < it.index() && (*(#[trigger] it.seq()[j]).1).valid_until.0 < now
                        ==> expired@.contains(*it.seq()[j].0),
                forall|a: int|
                    0 <= a < expired@.len() ==> before.contains_key(#[trigger] expired@[a])
                        && before[expired@[a]].valid_until.0 < now,
        {
            let (id, binding) = kv;
            assert(before.contains_key(*id) && before[*id] == *binding);
            if binding.valid_until.0 < now {
                let ghost old_expired = expired@;
                expired.push(*id);
                proof {
                    assert(expired@[old_expired.len() as int] == *id);
                    assert forall|j: int|
                        0 <= j <= it.index() && (*(#[trigger] it.seq()[j]).1).valid_until.0
                            < now implies expired@.contains(*it.seq()[j].0) by {
                        if j < it.index() {
                            let a = choose|a: int|
                                0 <= a < old_expired.len() && old_expired[a] == *it.seq()[j].0;
                            assert(expired@[a] == *it.seq()[j].0);
                        }
                    }
                }
            }
        }
        proof {
            assert forall|id: u64| before.contains_key(id) && before[id].valid_until.0
                < now implies expired@.contains(id) by {
                let v = spec_hash_map_iter(&self.connections).remaining();
                assert(v.contains((&id, &before[id])));
                let j = choose|j: int| 0 <= j < v.len() && v[j] == (&id, &before[id]);
                assert((*v[j].1).valid_until.0 < now);
            }
        }
        let mut i: usize = 0;
        while i < expired.len()
            invariant
                i <= expired.len(),
                forall|a: int|
                    0 <= a < expired@.len() ==> before.contains_key(#[trigger] expired@[a])
                        && before[expired@[a]].valid_until.0 < now,
                forall|id: u64|
                    before.contains_key(id) && before[id].valid_until.0 < now
                        ==> expired@.contains(id),
                forall|id: u64|
                    self@.contains_key(id) <==> before.contains_key(id) && !(exists|a: int|
                        0 <= a < i && expired@[a] == id),
                forall|id: u64| self@.contains_key(id) ==> self@[id] == before[id],
            decreases expired.len() - i,
        {
            let id = expired[i];
            self.connections.remove(&id);
            i += 1;
        }
        proof {
            let target = unexpired(before, now);
            assert forall|id: u64| self@.contains_key(id) == target.contains_key(id) by {
                if before.contains_key(id) && before[id].valid_until.0 < now {
                    assert(expired@.contains(id));
                    let a = choose|a: int| 0 <= a < expired@.len() && expired@[a] == id;
                    assert(0 <= a < i && expired@[a] == id);
                }
            }
            assert(self@ =~= target);
        }
    }
}

/// A connection id issued to one address is honoured for no other address,
/// at no time.
pub proof fn lemma_connection_id_bound_to_address(
    m: Map<u64, ConnectionBinding>,
    connection_id: ConnectionId,
    ip_a: IpAddr,
    ip_b: IpAddr,
    valid_until: ValidUntil,
    now: u64,
)
    requires
        ip_a != ip_b,
    ensures
        !accepts(
            m.insert(connection_id.0, ConnectionBinding { ip: ip_a, valid_until }),
            connection_id,
            ip_b,
            now,
        ),
{
}

/// A connection id is honoured up to its deadline and not after it, and a
/// cleaning pass changes nothing of that.
pub proof fn lemma_connection_id_expires(
    m: Map<u64, ConnectionBinding>,
    connection_id: ConnectionId,
    ip: IpAddr,
    now: u64,
    cleaned_at: u64,
)
    requires
        cleaned_at <= now,
    ensures
        accepts(m, connection_id, ip, now) ==> now <= m[connection_id.0].valid_until.0,
        accepts(unexpired(m, cleaned_at), connection_id, ip, now) == accepts(
            m,
            connection_id,
            ip,
            now,
        ),
{
}

} // verus!
