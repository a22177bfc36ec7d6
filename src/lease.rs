use vstd::prelude::*;

use crate::codec::{counter_bytes, counter_of, decode_counter_at, encode_counter, lemma_counter_round_trip};
use crate::error::Error;
use crate::keys::copy_bytes;
use crate::kv::MemStore;

verus! {

/// The stored form of a lease: its holder, the instant it runs out, and
/// what the holder publishes under it (a leader's address).
pub open spec fn lease_bytes(holder: u64, expire_at: u64, info: Seq<u8>) -> Seq<u8> {
    counter_bytes(holder) + counter_bytes(expire_at) + info
}

pub open spec fn is_lease(b: Seq<u8>) -> bool {
    b.len() >= 16
}

pub open spec fn lease_holder(b: Seq<u8>) -> u64 {
    counter_of(b.subrange(0, 8))
}

pub open spec fn lease_expiry(b: Seq<u8>) -> u64 {
    counter_of(b.subrange(8, 16))
}

pub open spec fn lease_info(b: Seq<u8>) -> Seq<u8> {
    b.subrange(16, b.len() as int)
}

pub proof fn lemma_lease_round_trip(holder: u64, expire_at: u64, info: Seq<u8>)
    ensures
        is_lease(lease_bytes(holder, expire_at, info)),
        lease_holder(lease_bytes(holder, expire_at, info)) == holder,
        lease_expiry(lease_bytes(holder, expire_at, info)) == expire_at,
        lease_info(lease_bytes(holder, expire_at, info)) == info,
{
    let b = lease_bytes(holder, expire_at, info);
    lemma_counter_round_trip(holder);
    lemma_counter_round_trip(expire_at);
    assert(b.subrange(0, 8) =~= counter_bytes(holder));
    assert(b.subrange(8, 16) =~= counter_bytes(expire_at));
    assert(b.subrange(16, b.len() as int) =~= info);
}

/// No unexpired lease stands on `name` at `now`.
pub open spec fn lock_free(m: Map<Seq<u8>, Seq<u8>>, name: Seq<u8>, now: u64) -> bool {
    !m.contains_key(name) || lease_expiry(m[name]) <= now
}

/// What is stored under `name` is not a lease.
pub open spec fn malformed(m: Map<Seq<u8>, Seq<u8>>, name: Seq<u8>) -> bool {
    m.contains_key(name) && !is_lease(m[name])
}

/// The lease of a guard still stands on its name at `now`.
pub open spec fn still_held(m: Map<Seq<u8>, Seq<u8>>, g: LockGuard, now: u64) -> bool {
    &&& m.contains_key(g.name@)
    &&& is_lease(m[g.name@])
    &&& lease_holder(m[g.name@]) == g.holder
    &&& lease_expiry(m[g.name@]) == g.expire_at
    &&& now < g.expire_at
}

/// Proof that a lease was granted on `name` to `holder` until `expire_at`.
pub struct LockGuard {
    pub name: Vec<u8>,
    pub holder: u64,
    pub expire_at: u64,
}

/// One round of waiting for a lock.
pub enum AcquireStep {
    Acquired(LockGuard),
    /// Held by someone else: wait for its deletion, or at the latest until
    /// this instant, then try again.
    Wait { until: u64 },
}

fn encode_lease(holder: u64, expire_at: u64, info: &[u8]) -> (r: Vec<u8>)
    ensures
        r@ == lease_bytes(holder, expire_at, info@),
{
    let mut r = encode_counter(holder);
    let mut e = encode_counter(expire_at);
    r.append(&mut e);
    let mut i = copy_bytes(info);
    r.append(&mut i);
    r
}

/// The lease stored under `name`: `Ok(None)` when there is none, an error
/// when what is stored is not a lease.
fn read_lease(store: &MemStore, name: &[u8]) -> (r: Result<Option<(u64, u64)>, Error>)
    requires
        store.wf(),
    ensures
        !store@.contains_key(name@) ==> (r matches Ok(None)),
        malformed(store@, name@) ==> (r matches Err(Error::InvalidLeaseKey { .. })),
        store@.contains_key(name@) && is_lease(store@[name@]) ==> (r matches Ok(Some((h, e))) && h
            == lease_holder(store@[name@]) && e == lease_expiry(store@[name@])),
{
    match store.get(name) {
        None => Ok(None),
        Some(b) => {
            assert(b@ == store@[name@]);
            if b.len() < 16 {
                Err(Error::InvalidLeaseKey { lease_key: copy_bytes(name) })
            } else {
                let h = decode_counter_at(b.as_slice(), 0);
                let e = decode_counter_at(b.as_slice(), 8);
                Ok(Some((h, e)))
            }
        },
    }
}

/// Takes the lock `name` for `holder` until `now + ttl` when no unexpired
/// lease stands on it; `Ok(None)` when another lease still runs.
pub fn try_lock(store: &mut MemStore, name: &[u8], holder: u64, ttl: u64, info: &[u8], now: u64) -> (r:
    Result<Option<LockGuard>, Error>)
    requires
        old(store).wf(),
    ensures
        final(store).wf(),
        malformed(old(store)@, name@) ==> (r matches Err(Error::InvalidLeaseKey { .. })
            && final(store)@ == old(store)@),
        !malformed(old(store)@, name@) && now + ttl > u64::MAX ==> (r matches Err(
            Error::InvalidArguments { .. },
        ) && final(store)@ == old(store)@),
        !malformed(old(store)@, name@) && now + ttl <= u64::MAX && lock_free(old(store)@, name@, now)
            ==> (r matches Ok(Some(g)) && g.name@ == name@ && g.holder == holder && g.expire_at == now
            + ttl && final(store)@ == old(store)@.insert(
            name@,
            lease_bytes(holder, (now + ttl) as u64, info@),
        )),
        !malformed(old(store)@, name@) && now + ttl <= u64::MAX && !lock_free(
            old(store)@,
            name@,
            now,
        ) ==> (r matches Ok(None) && final(store)@ == old(store)@),
{
    let current = read_lease(store, name);
    match current {
        Err(e) => {
            return Err(e);
        },
        Ok(cur) => {
            if ttl > u64::MAX - now {
                return Err(
                    Error::InvalidArguments { err_msg: "lease outlives the clock".to_string() },
                );
            }
            let free = match cur {
                None => true,
                Some((_, e)) => e <= now,
            };
            if !free {
                return Ok(None);
            }
            let expire_at = now + ttl;
            let v = encode_lease(holder, expire_at, info);
            let _ = store.put(name, v.as_slice());
            Ok(Some(LockGuard { name: copy_bytes(name), holder, expire_at }))
        },
    }
}

/// Whether `holder` still holds the lease of `g` at `now`.
fn holds(store: &MemStore, g: &LockGuard, now: u64) -> (r: bool)
    requires
        store.wf(),
    ensures
        r == still_held(store@, *g, now),
{
    match read_lease(store, g.name.as_slice()) {
        Ok(Some((h, e))) => h == g.holder && e == g.expire_at && now < g.expire_at,
        _ => false,
    }
}

/// Releases a lock. When its lease has already run out or was taken over,
/// nothing is deleted and `false` tells the caller that its exclusivity may
/// have lapsed.
pub fn unlock(store: &mut MemStore, g: &LockGuard, now: u64) -> (r: bool)
    requires
        old(store).wf(),
    ensures
        final(store).wf(),
        r == still_held(old(store)@, *g, now),
        r ==> final(store)@ == old(store)@.remove(g.name@),
        !r ==> final(store)@ == old(store)@,
{
    if holds(store, g, now) {
        let _ = store.delete(g.name.as_slice());
        true
    } else {
        false
    }
}

/// Extends a lease that still stands to `now + ttl`; `Ok(None)` when it has
/// lapsed, in which case nothing changes.
pub fn refresh(store: &mut MemStore, g: &LockGuard, ttl: u64, info: &[u8], now: u64) -> (r: Result<
    Option<LockGuard>,
    Error,
>)
    requires
        old(store).wf(),
    ensures
        final(store).wf(),
        !still_held(old(store)@, *g, now) ==> (r matches Ok(None) && final(store)@ == old(store)@),
        still_held(old(store)@, *g, now) && now + ttl > u64::MAX ==> (r matches Err(
            Error::InvalidArguments { .. },
        ) && final(store)@ == old(store)@),
        still_held(old(store)@, *g, now) && now + ttl <= u64::MAX ==> (r matches Ok(Some(n))
            && n.name@ == g.name@ && n.holder == g.holder && n.expire_at == now + ttl
            && final(store)@ == old(store)@.insert(
            g.name@,
            lease_bytes(g.holder, (now + ttl) as u64, info@),
        )),
{
    if !holds(store, g, now) {
        return Ok(None);
    }
    if ttl > u64::MAX - now {
        return Err(Error::InvalidArguments { err_msg: "lease outlives the clock".to_string() });
    }
    let expire_at = now + ttl;
    let v = encode_lease(g.holder, expire_at, info);
    let _ = store.put(g.name.as_slice(), v.as_slice());
    Ok(Some(LockGuard { name: copy_bytes(g.name.as_slice()), holder: g.holder, expire_at }))
}

/// One round of `lock(name, ttl)` with a deadline: takes the lock when it
/// is free, fails with a timeout once `deadline` has come, and otherwise
/// says until when to wait before the next round.
pub fn acquire_step(
    store: &mut MemStore,
    name: &[u8],
    holder: u64,
    ttl: u64,
    now: u64,
    deadline: u64,
) -> (r: Result<AcquireStep, Error>)
    requires
        old(store).wf(),
    ensures
        final(store).wf(),
        malformed(old(store)@, name@) ==> (r matches Err(Error::InvalidLeaseKey { .. })
            && final(store)@ == old(store)@),
        !malformed(old(store)@, name@) && now + ttl > u64::MAX ==> (r matches Err(
            Error::InvalidArguments { .. },
        ) && final(store)@ == old(store)@),
        !malformed(old(store)@, name@) && now + ttl <= u64::MAX && lock_free(old(store)@, name@, now)
            ==> (r matches Ok(AcquireStep::Acquired(g)) && g.name@ == name@ && g.holder == holder
            && g.expire_at == now + ttl && final(store)@ == old(store)@.insert(
            name@,
            lease_bytes(holder, (now + ttl) as u64, Seq::empty()),
        )),
        !malformed(old(store)@, name@) && now + ttl <= u64::MAX && !lock_free(
            old(store)@,
            name@,
            now,
        ) ==> final(store)@ == old(store)@ && if now >= deadline {
            r matches Err(Error::LockTimeout { lock_name: n }) && n@ == name@
        } else {
            r matches Ok(AcquireStep::Wait { until }) && now < until && until == if lease_expiry(
                old(store)@[name@],
            ) < deadline {
                lease_expiry(old(store)@[name@])
            } else {
                deadline
            }
        },
{
    let no_info: Vec<u8> = Vec::new();
    match try_lock(store, name, holder, ttl, no_info.as_slice(), now) {
        Err(e) => Err(e),
        Ok(Some(g)) => Ok(AcquireStep::Acquired(g)),
        Ok(None) => {
            if now >= deadline {
                return Err(Error::LockTimeout { lock_name: copy_bytes(name) });
            }
            match read_lease(store, name) {
                Ok(Some((_, e))) => {
                    let until = if e < deadline {
                        e
                    } else {
                        deadline
                    };
                    Ok(AcquireStep::Wait { until })
                },
                _ => Ok(AcquireStep::Wait { until: deadline }),
            }
        },
    }
}

/// Locks of different names never contend: taking or releasing one leaves
/// whether another is free as it was.
pub proof fn lemma_names_independent(
    m: Map<Seq<u8>, Seq<u8>>,
    a: Seq<u8>,
    v: Seq<u8>,
    b: Seq<u8>,
    now: u64,
)
    requires
        a != b,
    ensures
        lock_free(m.insert(a, v), b, now) == lock_free(m, b, now),
        lock_free(m.remove(a), b, now) == lock_free(m, b, now),
        malformed(m.insert(a, v), b) == malformed(m, b),
        malformed(m.remove(a), b) == malformed(m, b),
{
}

/// Mutual exclusion: once `a` has taken the lock on `name` at `t1` for
/// `ttl`, an attempt by anyone at a time `t2` before that lease runs out
/// finds the lock taken, whoever makes it.
pub proof fn lemma_lock_exclusive(
    m: Map<Seq<u8>, Seq<u8>>,
    name: Seq<u8>,
    a: u64,
    info: Seq<u8>,
    t1: u64,
    ttl: u64,
    t2: u64,
)
    requires
        t1 + ttl <= u64::MAX,
        t2 < t1 + ttl,
    ensures
        !lock_free(m.insert(name, lease_bytes(a, (t1 + ttl) as u64, info)), name, t2),
        !malformed(m.insert(name, lease_bytes(a, (t1 + ttl) as u64, info)), name),
{
    lemma_lease_round_trip(a, (t1 + ttl) as u64, info);
}

} // verus!
