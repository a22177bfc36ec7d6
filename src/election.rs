use vstd::prelude::*;

use crate::error::Error;
use crate::kv::MemStore;
use crate::lease::{
    is_lease, lease_expiry, lease_holder, lease_info, lemma_lease_round_trip, lock_free, malformed,
    refresh, try_lock, LockGuard,
};

verus! {

/// What a node believes about leadership.
pub enum Role {
    Leader,
    /// Someone else leads; the leader's address once known.
    Follower { leader: Option<Vec<u8>> },
}

/// One node's side of the election: it campaigns for the lease on `key`,
/// keeps it alive while it leads, and steps down when it cannot.
pub struct ElectionNode {
    pub node_id: u64,
    pub addr: Vec<u8>,
    pub key: Vec<u8>,
    pub ttl: u64,
    pub role: Role,
    /// While leading, the instant at which its lease runs out.
    pub lease_deadline: u64,
}

/// The node sees itself as leader at `now`.
pub open spec fn observes_leader(n: ElectionNode, now: u64) -> bool {
    n.role is Leader && now < n.lease_deadline
}

/// What the node believes agrees with the store at `now`: a node that
/// calls itself leader either has seen its lease run out, or the store
/// holds its lease, with its address, until the instant it believes.
pub open spec fn consistent(n: ElectionNode, m: Map<Seq<u8>, Seq<u8>>, now: u64) -> bool {
    n.role is Leader ==> (n.lease_deadline <= now || (m.contains_key(n.key@) && is_lease(
        m[n.key@],
    ) && lease_holder(m[n.key@]) == n.node_id && lease_expiry(m[n.key@]) == n.lease_deadline
        && lease_info(m[n.key@]) == n.addr@))
}

/// The time going by keeps a node consistent with an unchanged store.
pub proof fn lemma_consistent_later(n: ElectionNode, m: Map<Seq<u8>, Seq<u8>>, t1: u64, t2: u64)
    requires
        consistent(n, m, t1),
        t1 <= t2,
    ensures
        consistent(n, m, t2),
{
}

/// Election safety: of two distinct nodes that campaign on one key and agree
/// with the store, at most one sees itself as leader at any instant.
pub proof fn lemma_at_most_one_leader(
    m: Map<Seq<u8>, Seq<u8>>,
    n1: ElectionNode,
    n2: ElectionNode,
    now: u64,
)
    requires
        n1.node_id != n2.node_id,
        n1.key@ == n2.key@,
        consistent(n1, m, now),
        consistent(n2, m, now),
    ensures
        !(observes_leader(n1, now) && observes_leader(n2, now)),
{
}

/// While a node leads, the election key is taken and names its address: a
/// follower's round at that instant (see `step`) reports exactly that
/// address as the leader's.
pub proof fn lemma_leader_is_published(m: Map<Seq<u8>, Seq<u8>>, l: ElectionNode, now: u64)
    requires
        consistent(l, m, now),
        observes_leader(l, now),
    ensures
        !malformed(m, l.key@),
        !lock_free(m, l.key@, now),
        lease_info(m[l.key@]) == l.addr@,
{
}

fn read_leader(store: &MemStore, key: &[u8]) -> (r: Option<Vec<u8>>)
    requires
        store.wf(),
    ensures
        store@.contains_key(key@) && is_lease(store@[key@]) ==> (r matches Some(a) && a@
            == lease_info(store@[key@])),
        !(store@.contains_key(key@) && is_lease(store@[key@])) ==> r is None,
{
    match store.get(key) {
        None => None,
        Some(b) => {
            if b.len() < 16 {
                None
            } else {
                let mut a: Vec<u8> = Vec::new();
                let mut i: usize = 16;
                while i < b.len()
                    invariant
                        16 <= i <= b@.len(),
                        a@ == b@.subrange(16, i as int),
                    decreases b.len() - i,
                {
                    a.push(b[i]);
                    i = i + 1;
                }
                assert(a@ =~= b@.subrange(16, b@.len() as int));
                Some(a)
            }
        },
    }
}

impl ElectionNode {
    /// A node that has not campaigned yet: a follower that knows no leader.
    pub fn new(node_id: u64, addr: Vec<u8>, key: Vec<u8>, ttl: u64) -> (r: ElectionNode)
        ensures
            r.node_id == node_id && r.addr@ == addr@ && r.key@ == key@ && r.ttl == ttl,
            r.role matches Role::Follower { leader: None },
            forall|m: Map<Seq<u8>, Seq<u8>>, now: u64| consistent(r, m, now),
    {
        ElectionNode { node_id, addr, key, ttl, role: Role::Follower { leader: None }, lease_deadline: 0 }
    }

    /// Whether the node sees itself as leader at `now`.
    pub fn is_leader(&self, now: u64) -> (r: bool)
        ensures
            r == observes_leader(*self, now),
    {
        match self.role {
            Role::Leader => now < self.lease_deadline,
            Role::Follower { .. } => false,
        }
    }

    /// Steps down: used when keep-alive fails, or when the lease deadline
    /// has come without a refresh.
    pub fn demote(&mut self)
        ensures
            final(self).role matches Role::Follower { leader: None },
            final(self).node_id == old(self).node_id && final(self).key@ == old(self).key@
                && final(self).addr@ == old(self).addr@,
            forall|m: Map<Seq<u8>, Seq<u8>>, now: u64| consistent(*final(self), m, now),
    {
        self.role = Role::Follower { leader: None };
    }

    /// One round of the election at `now`. A leader refreshes its lease and
    /// steps down when the lease has lapsed; a follower campaigns and either
    /// wins or learns who leads. Returns whether the role changed, which is
    /// then published to subscribers.
    pub fn step(&mut self, store: &mut MemStore, now: u64) -> (r: Result<bool, Error>)
        requires
            old(store).wf(),
            consistent(*old(self), old(store)@, now),
        ensures
            final(store).wf(),
            consistent(*final(self), final(store)@, now),
            final(self).node_id == old(self).node_id && final(self).key@ == old(self).key@
                && final(self).ttl == old(self).ttl && final(self).addr@ == old(self).addr@,
            forall|o: ElectionNode|
                o.node_id != old(self).node_id && consistent(o, old(store)@, now) ==> #[trigger] consistent(
                    o,
                    final(store)@,
                    now,
                ),
            old(self).role is Follower && !malformed(old(store)@, old(self).key@) && now
                + old(self).ttl <= u64::MAX ==> (lock_free(old(store)@, old(self).key@, now)
                <==> final(self).role is Leader),
            old(self).role is Follower && !malformed(old(store)@, old(self).key@) && now
                + old(self).ttl <= u64::MAX && lock_free(old(store)@, old(self).key@, now)
                ==> final(self).lease_deadline == now + old(self).ttl,
            old(self).role is Follower && !malformed(old(store)@, old(self).key@) && now
                + old(self).ttl <= u64::MAX && !lock_free(old(store)@, old(self).key@, now)
                ==> (final(self).role matches Role::Follower { leader: Some(a) } && a@ == lease_info(
                old(store)@[old(self).key@],
            )),
            old(self).role is Leader && now < old(self).lease_deadline && now + old(self).ttl
                <= u64::MAX ==> final(self).role is Leader && final(self).lease_deadline == now
                + old(self).ttl,
            old(self).role is Leader && old(self).lease_deadline <= now ==> (final(self).role matches Role::Follower { leader: None }),
    {
        match self.role {
            Role::Leader => {
                let g = LockGuard {
                    name: crate::keys::copy_bytes(self.key.as_slice()),
                    holder: self.node_id,
                    expire_at: self.lease_deadline,
                };
                match refresh(store, &g, self.ttl, self.addr.as_slice(), now) {
                    Err(e) => {
                        self.role = Role::Follower { leader: None };
                        Err(e)
                    },
                    Ok(Some(n)) => {
                        proof {
                            lemma_lease_round_trip(self.node_id, n.expire_at, self.addr@);
                        }
                        self.lease_deadline = n.expire_at;
                        Ok(false)
                    },
                    Ok(None) => {
                        self.role = Role::Follower { leader: None };
                        Ok(true)
                    },
                }
            },
            Role::Follower { .. } => {
                match try_lock(store, self.key.as_slice(), self.node_id, self.ttl, self.addr.as_slice(), now) {
                    Err(e) => Err(e),
                    Ok(Some(g)) => {
                        proof {
                            lemma_lease_round_trip(self.node_id, g.expire_at, self.addr@);
                        }
                        self.role = Role::Leader;
                        self.lease_deadline = g.expire_at;
                        Ok(true)
                    },
                    Ok(None) => {
                        let leader = read_leader(store, self.key.as_slice());
                        self.role = Role::Follower { leader };
                        Ok(false)
                    },
                }
            },
        }
    }
}

} // verus!
