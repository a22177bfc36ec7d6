use vstd::prelude::*;

use crate::keys::{
    compare_keys, copy_bytes, key_lt, lemma_key_lt_irreflexive, lemma_key_lt_transitive,
    starts_with, KeyOrder,
};

verus! {

/// One entry of the store.
pub struct KvPair {
    pub key: Vec<u8>,
    pub value: Vec<u8>,
}

impl View for KvPair {
    type V = (Seq<u8>, Seq<u8>);

    open spec fn view(&self) -> (Seq<u8>, Seq<u8>) {
        (self.key@, self.value@)
    }
}

pub open spec fn pairs_view(v: Seq<KvPair>) -> Seq<(Seq<u8>, Seq<u8>)> {
    v.map_values(|p: KvPair| p@)
}

pub open spec fn opt_view(o: Option<Vec<u8>>) -> Option<Seq<u8>> {
    match o {
        Some(v) => Some(v@),
        None => None,
    }
}

pub open spec fn responses_view(v: Seq<Option<Vec<u8>>>) -> Seq<Option<Seq<u8>>> {
    v.map_values(|o: Option<Vec<u8>>| opt_view(o))
}

/// What `m` holds under `k`.
pub open spec fn lookup(m: Map<Seq<u8>, Seq<u8>>, k: Seq<u8>) -> Option<Seq<u8>> {
    if m.contains_key(k) {
        Some(m[k])
    } else {
        None
    }
}

/// The keys of `s` strictly increase.
pub open spec fn strictly_sorted(s: Seq<(Seq<u8>, Seq<u8>)>) -> bool {
    forall|i: int, j: int| 0 <= i < j < s.len() ==> key_lt(s[i].0, s[j].0)
}

/// `s` lists, in key order, exactly the entries of `m` whose key begins with
/// `prefix`.
pub open spec fn lists_prefix(
    s: Seq<(Seq<u8>, Seq<u8>)>,
    m: Map<Seq<u8>, Seq<u8>>,
    prefix: Seq<u8>,
) -> bool {
    &&& strictly_sorted(s)
    &&& forall|i: int|
        0 <= i < s.len() ==> prefix.is_prefix_of(#[trigger] s[i].0) && m.contains_key(s[i].0)
            && m[s[i].0] == s[i].1
    &&& forall|k: Seq<u8>|
        m.contains_key(k) && prefix.is_prefix_of(k) ==> exists|i: int|
            0 <= i < s.len() && (#[trigger] s[i].0) == k
}

/// A predicate that a transaction tests before it writes.
pub enum Compare {
    /// The key holds exactly this value.
    ValueIs { key: Vec<u8>, value: Vec<u8> },
    /// The key holds nothing.
    Absent { key: Vec<u8> },
}

/// One operation of a transaction branch.
pub enum TxnOp {
    Put { key: Vec<u8>, value: Vec<u8> },
    Delete { key: Vec<u8> },
    Get { key: Vec<u8> },
}

/// An atomic batch: when every compare holds the success branch is applied,
/// else the failure branch.
pub struct Txn {
    pub compares: Vec<Compare>,
    pub success: Vec<TxnOp>,
    pub failure: Vec<TxnOp>,
}

/// Which branch ran, and for each of its operations the value that its key
/// held just before it.
pub struct TxnResult {
    pub succeeded: bool,
    pub responses: Vec<Option<Vec<u8>>>,
}

pub open spec fn compare_holds(m: Map<Seq<u8>, Seq<u8>>, c: Compare) -> bool {
    match c {
        Compare::ValueIs { key, value } => lookup(m, key@) == Some(value@),
        Compare::Absent { key } => !m.contains_key(key@),
    }
}

pub open spec fn all_hold(m: Map<Seq<u8>, Seq<u8>>, cs: Seq<Compare>) -> bool {
    forall|i: int| 0 <= i < cs.len() ==> compare_holds(m, #[trigger] cs[i])
}

pub open spec fn op_key(op: TxnOp) -> Seq<u8> {
    match op {
        TxnOp::Put { key, .. } => key@,
        TxnOp::Delete { key } => key@,
        TxnOp::Get { key } => key@,
    }
}

pub open spec fn apply_op(m: Map<Seq<u8>, Seq<u8>>, op: TxnOp) -> Map<Seq<u8>, Seq<u8>> {
    match op {
        TxnOp::Put { key, value } => m.insert(key@, value@),
        TxnOp::Delete { key } => m.remove(key@),
        TxnOp::Get { .. } => m,
    }
}

/// The store after applying `ops` in order.
pub open spec fn apply_ops(m: Map<Seq<u8>, Seq<u8>>, ops: Seq<TxnOp>) -> Map<Seq<u8>, Seq<u8>>
    decreases ops.len(),
{
    if ops.len() == 0 {
        m
    } else {
        apply_op(apply_ops(m, ops.drop_last()), ops.last())
    }
}

/// For each of `ops`, the value its key held just before it ran.
pub open spec fn echoes(m: Map<Seq<u8>, Seq<u8>>, ops: Seq<TxnOp>) -> Seq<Option<Seq<u8>>>
    decreases ops.len(),
{
    if ops.len() == 0 {
        Seq::empty()
    } else {
        echoes(m, ops.drop_last()).push(lookup(apply_ops(m, ops.drop_last()), op_key(ops.last())))
    }
}

/// The store after a transaction.
pub open spec fn txn_outcome(m: Map<Seq<u8>, Seq<u8>>, t: Txn) -> Map<Seq<u8>, Seq<u8>> {
    if all_hold(m, t.compares@) {
        apply_ops(m, t.success@)
    } else {
        apply_ops(m, t.failure@)
    }
}

/// Whether some operation of `ops` names key `k`.
pub open spec fn touches(ops: Seq<TxnOp>, k: Seq<u8>) -> bool {
    exists|i: int| 0 <= i < ops.len() && op_key(#[trigger] ops[i]) == k
}

/// Operations leave every key that none of them names as it was.
pub proof fn lemma_untouched_key_kept(m: Map<Seq<u8>, Seq<u8>>, ops: Seq<TxnOp>, k: Seq<u8>)
    requires
        !touches(ops, k),
    ensures
        lookup(apply_ops(m, ops), k) == lookup(m, k),
    decreases ops.len(),
{
    if ops.len() > 0 {
        let init = ops.drop_last();
        assert(!touches(init, k)) by {
            if touches(init, k) {
                let i = choose|i: int| 0 <= i < init.len() && op_key(#[trigger] init[i]) == k;
                assert(ops[i] == init[i]);
            }
        }
        lemma_untouched_key_kept(m, init, k);
        assert(op_key(ops[ops.len() - 1]) != k);
    }
}

/// A transaction whose compares do not all hold runs its failure branch
/// alone: every key that only the success branch names keeps its value, and
/// with an empty failure branch the whole store is left as it was.
pub proof fn lemma_failed_txn_atomic(m: Map<Seq<u8>, Seq<u8>>, t: Txn)
    requires
        !all_hold(m, t.compares@),
    ensures
        txn_outcome(m, t) == apply_ops(m, t.failure@),
        forall|k: Seq<u8>|
            !touches(t.failure@, k) ==> lookup(#[trigger] txn_outcome(m, t), k) == lookup(m, k)
                && (touches(t.success@, k) ==> lookup(txn_outcome(m, t), k) == lookup(m, k)),
        t.failure@.len() == 0 ==> txn_outcome(m, t) == m,
{
    assert forall|k: Seq<u8>| !touches(t.failure@, k) implies lookup(
        #[trigger] txn_outcome(m, t),
        k,
    ) == lookup(m, k) by {
        lemma_untouched_key_kept(m, t.failure@, k);
    }
}

/// An ordered in-memory store, guarded by its owner.
pub struct MemStore {
    entries: Vec<KvPair>,
    contents: Ghost<Map<Seq<u8>, Seq<u8>>>,
}

impl View for MemStore {
    type V = Map<Seq<u8>, Seq<u8>>;

    closed spec fn view(&self) -> Map<Seq<u8>, Seq<u8>> {
        self.contents@
    }
}

proof fn lemma_empty_prefix(k: Seq<u8>)
    ensures
        Seq::<u8>::empty().is_prefix_of(k),
{
    assert(Seq::<u8>::empty() =~= k.subrange(0, 0));
}

proof fn lemma_key_lt_ne(a: Seq<u8>, b: Seq<u8>)
    requires
        key_lt(a, b),
    ensures
        a != b,
{
    lemma_key_lt_irreflexive(a);
}

impl MemStore {
    pub closed spec fn wf(&self) -> bool {
        lists_prefix(pairs_view(self.entries@), self.contents@, Seq::empty())
    }

    /// An empty store.
    pub fn new() -> (r: MemStore)
        ensures
            r.wf(),
            r@ == Map::<Seq<u8>, Seq<u8>>::empty(),
    {
        let r = MemStore { entries: Vec::new(), contents: Ghost(Map::empty()) };
        assert(pairs_view(r.entries@) =~= Seq::empty());
        r
    }

    /// Position of the first entry whose key does not sort before `key`.
    fn position(&self, key: &[u8]) -> (r: (usize, bool))
        requires
            self.wf(),
        ensures
            r.0 <= self.entries@.len(),
            forall|j: int| 0 <= j < r.0 ==> key_lt(#[trigger] self.entries@[j].key@, key@),
            r.1 == (r.0 < self.entries@.len() && self.entries@[r.0 as int].key@ == key@),
            r.0 < self.entries@.len() && !r.1 ==> key_lt(key@, self.entries@[r.0 as int].key@),
            r.1 == self@.contains_key(key@),
    {
        let ghost s = pairs_view(self.entries@);
        let mut i: usize = 0;
        while i < self.entries.len()
            invariant
                self.wf(),
                s == pairs_view(self.entries@),
                0 <= i <= self.entries@.len(),
                forall|j: int| 0 <= j < i ==> key_lt(#[trigger] self.entries@[j].key@, key@),
            decreases self.entries.len() - i,
        {
            match compare_keys(self.entries[i].key.as_slice(), key) {
                KeyOrder::Less => {
                    i = i + 1;
                },
                KeyOrder::Equal => {
                    assert(s[i as int].0 == key@);
                    return (i, true);
                },
                KeyOrder::Greater => {
                    proof {
                        assert(s[i as int].0 == self.entries@[i as int].key@);
                        if self@.contains_key(key@) {
                            lemma_empty_prefix(key@);
                            let t = choose|t: int| 0 <= t < s.len() && (#[trigger] s[t].0) == key@;
                            if t < i {
                                assert(s[t].0 == self.entries@[t].key@);
                                lemma_key_lt_ne(key@, key@);
                            } else if t > i {
                                lemma_key_lt_transitive(key@, s[i as int].0, s[t].0);
                                lemma_key_lt_ne(key@, key@);
                            }
                        }
                        lemma_key_lt_ne(key@, s[i as int].0);
                    }
                    return (i, false);
                },
            }
        }
        proof {
            if self@.contains_key(key@) {
                lemma_empty_prefix(key@);
                let t = choose|t: int| 0 <= t < s.len() && (#[trigger] s[t].0) == key@;
                assert(s[t].0 == self.entries@[t].key@);
                lemma_key_lt_ne(key@, key@);
            }
        }
        (i, false)
    }

    /// The value stored under `key`.
    pub fn get(&self, key: &[u8]) -> (r: Option<Vec<u8>>)
        requires
            self.wf(),
        ensures
            opt_view(r) == lookup(self@, key@),
    {
        let (i, found) = self.position(key);
        if found {
            proof {
                let s = pairs_view(self.entries@);
                assert(s[i as int].0 == key@);
            }
            Some(copy_bytes(self.entries[i].value.as_slice()))
        } else {
            None
        }
    }

    /// Stores `value` under `key` and returns what was there before.
    pub fn put(&mut self, key: &[u8], value: &[u8]) -> (r: Option<Vec<u8>>)
        requires
            old(self).wf(),
        ensures
            final(self).wf(),
            final(self)@ == old(self)@.insert(key@, value@),
            opt_view(r) == lookup(old(self)@, key@),
    {
        let (i, found) = self.position(key);
        let ghost s0 = pairs_view(self.entries@);
        let ghost m0 = self@;
        let pair = KvPair { key: copy_bytes(key), value: copy_bytes(value) };
        if found {
            proof {
                assert(s0[i as int].0 == key@);
            }
            let prev = copy_bytes(self.entries[i].value.as_slice());
            self.entries.set(i, pair);
            self.contents = Ghost(m0.insert(key@, value@));
            proof {
                let s = pairs_view(self.entries@);
                assert(s =~= s0.update(i as int, (key@, value@)));
                assert forall|a: int, b: int| 0 <= a < b < s.len() implies key_lt(s[a].0, s[b].0) by {
                    assert(s[a].0 == s0[a].0 && s[b].0 == s0[b].0);
                }
                assert forall|j: int| 0 <= j < s.len() implies Seq::<u8>::empty().is_prefix_of(
                    #[trigger] s[j].0,
                ) && self@.contains_key(s[j].0) && self@[s[j].0] == s[j].1 by {
                    assert(Seq::<u8>::empty() =~= s[j].0.subrange(0, 0));
                    if j != i {
                        assert(s[j] == s0[j]);
                        if j < i {
                            lemma_key_lt_ne(s0[j].0, s0[i as int].0);
                        } else {
                            lemma_key_lt_ne(s0[i as int].0, s0[j].0);
                        }
                    }
                }
                assert forall|k: Seq<u8>|
                    self@.contains_key(k) && Seq::<u8>::empty().is_prefix_of(k) implies exists|
                    j: int,
                | 0 <= j < s.len() && (#[trigger] s[j].0) == k by {
                    if k == key@ {
                        assert(s[i as int].0 == k);
                    } else {
                        assert(Seq::<u8>::empty() =~= k.subrange(0, 0));
                        let j = choose|j: int| 0 <= j < s0.len() && (#[trigger] s0[j].0) == k;
                        assert(s[j].0 == k);
                    }
                }
            }
            Some(prev)
        } else {
            self.entries.insert(i, pair);
            self.contents = Ghost(m0.insert(key@, value@));
            proof {
                let s = pairs_view(self.entries@);
                assert(s =~= s0.insert(i as int, (key@, value@)));
                assert forall|a: int, b: int| 0 <= a < b < s.len() implies key_lt(s[a].0, s[b].0) by {
                    if b < i {
                        assert(s[a] == s0[a] && s[b] == s0[b]);
                    } else if b == i {
                        assert(s[a].0 == self.entries@[a].key@);
                    } else if a == i {
                        assert(s[b] == s0[b - 1]);
                        if b - 1 > i {
                            lemma_key_lt_transitive(key@, s0[i as int].0, s0[b - 1].0);
                        }
                    } else if a < i {
                        assert(s[a] == s0[a] && s[b] == s0[b - 1]);
                    } else {
                        assert(s[a] == s0[a - 1] && s[b] == s0[b - 1]);
                    }
                }
                assert forall|j: int| 0 <= j < s.len() implies Seq::<u8>::empty().is_prefix_of(
                    #[trigger] s[j].0,
                ) && self@.contains_key(s[j].0) && self@[s[j].0] == s[j].1 by {
                    assert(Seq::<u8>::empty() =~= s[j].0.subrange(0, 0));
                    if j < i {
                        assert(s[j] == s0[j]);
                        assert(s0[j].0 == old(self).entries@[j].key@);
                        lemma_key_lt_ne(s0[j].0, key@);
                    } else if j > i {
                        assert(s[j] == s0[j - 1]);
                        if j - 1 > i {
                            lemma_key_lt_transitive(key@, s0[i as int].0, s0[j - 1].0);
                        }
                        lemma_key_lt_ne(key@, s0[j - 1].0);
                    }
                }
                assert forall|k: Seq<u8>|
                    self@.contains_key(k) && Seq::<u8>::empty().is_prefix_of(k) implies exists|
                    j: int,
                | 0 <= j < s.len() && (#[trigger] s[j].0) == k by {
                    if k == key@ {
                        assert(s[i as int].0 == k);
                    } else {
                        assert(Seq::<u8>::empty() =~= k.subrange(0, 0));
                        let j = choose|j: int| 0 <= j < s0.len() && (#[trigger] s0[j].0) == k;
                        if j < i {
                            assert(s[j].0 == k);
                        } else {
                            assert(s[j + 1].0 == k);
                        }
                    }
                }
            }
            None
        }
    }

    /// Removes `key`; says whether it was there.
    pub fn delete(&mut self, key: &[u8]) -> (r: bool)
        requires
            old(self).wf(),
        ensures
            final(self).wf(),
            final(self)@ == old(self)@.remove(key@),
            r == old(self)@.contains_key(key@),
    {
        let (i, found) = self.position(key);
        let ghost s0 = pairs_view(self.entries@);
        let ghost m0 = self@;
        if found {
            let _ = self.entries.remove(i);
            self.contents = Ghost(m0.remove(key@));
            proof {
                assert(s0[i as int].0 == key@);
                let s = pairs_view(self.entries@);
                assert(s =~= s0.remove(i as int));
                assert forall|a: int, b: int| 0 <= a < b < s.len() implies key_lt(s[a].0, s[b].0) by {
                    if b < i {
                        assert(s[a] == s0[a] && s[b] == s0[b]);
                    } else if a < i {
                        assert(s[a] == s0[a] && s[b] == s0[b + 1]);
                    } else {
                        assert(s[a] == s0[a + 1] && s[b] == s0[b + 1]);
                    }
                }
                assert forall|j: int| 0 <= j < s.len() implies Seq::<u8>::empty().is_prefix_of(
                    #[trigger] s[j].0,
                ) && self@.contains_key(s[j].0) && self@[s[j].0] == s[j].1 by {
                    assert(Seq::<u8>::empty() =~= s[j].0.subrange(0, 0));
                    if j < i {
                        assert(s[j] == s0[j]);
                        lemma_key_lt_ne(s0[j].0, key@);
                    } else {
                        assert(s[j] == s0[j + 1]);
                        lemma_key_lt_ne(key@, s0[j + 1].0);
                    }
                }
                assert forall|k: Seq<u8>|
                    self@.contains_key(k) && Seq::<u8>::empty().is_prefix_of(k) implies exists|
                    j: int,
                | 0 <= j < s.len() && (#[trigger] s[j].0) == k by {
                    assert(Seq::<u8>::empty() =~= k.subrange(0, 0));
                    let j = choose|j: int| 0 <= j < s0.len() && (#[trigger] s0[j].0) == k;
                    if j < i {
                        assert(s[j].0 == k);
                    } else {
                        assert(s[j - 1].0 == k);
                    }
                }
            }
            true
        } else {
            false
        }
    }

    /// The entries whose key begins with `prefix`, in key order.
    pub fn range(&self, prefix: &[u8]) -> (r: Vec<KvPair>)
        requires
            self.wf(),
        ensures
            lists_prefix(pairs_view(r@), self@, prefix@),
    {
        let ghost s = pairs_view(self.entries@);
        let mut out: Vec<KvPair> = Vec::new();
        let ghost mut idx: Seq<int> = Seq::empty();
        let mut i: usize = 0;
        while i < self.entries.len()
            invariant
                self.wf(),
                s == pairs_view(self.entries@),
                0 <= i <= s.len(),
                idx.len() == out@.len(),
                forall|t: int| 0 <= t < idx.len() ==> 0 <= #[trigger] idx[t] < i,
                forall|t: int, u: int| 0 <= t < u < idx.len() ==> idx[t] < idx[u],
                forall|t: int|
                    0 <= t < idx.len() ==> (#[trigger] pairs_view(out@)[t]) == s[idx[t]],
                forall|j: int|
                    0 <= j < i && prefix@.is_prefix_of(#[trigger] s[j].0) ==> exists|t: int|
                        0 <= t < idx.len() && idx[t] == j,
                forall|t: int| 0 <= t < idx.len() ==> prefix@.is_prefix_of(s[#[trigger] idx[t]].0),
            decreases s.len() - i,
        {
            assert(s[i as int].0 == self.entries@[i as int].key@);
            if starts_with(self.entries[i].key.as_slice(), prefix) {
                let pair = KvPair {
                    key: copy_bytes(self.entries[i].key.as_slice()),
                    value: copy_bytes(self.entries[i].value.as_slice()),
                };
                let ghost old_idx = idx;
                let ghost old_out = pairs_view(out@);
                out.push(pair);
                proof {
                    idx = idx.push(i as int);
                    assert(pairs_view(out@) =~= old_out.push(s[i as int]));
                    assert forall|j: int|
                        0 <= j < i + 1 && prefix@.is_prefix_of(#[trigger] s[j].0) implies exists|
                        t: int,
                    | 0 <= t < idx.len() && idx[t] == j by {
                        if j == i {
                            assert(idx[idx.len() - 1] == j);
                        } else {
                            let t = choose|t: int| 0 <= t < old_idx.len() && old_idx[t] == j;
                            assert(idx[t] == j);
                        }
                    }
                }
            }
            i = i + 1;
        }
        proof {
            let r = pairs_view(out@);
            assert forall|a: int, b: int| 0 <= a < b < r.len() implies key_lt(r[a].0, r[b].0) by {
                assert(r[a] == s[idx[a]] && r[b] == s[idx[b]]);
            }
            assert forall|t: int| 0 <= t < r.len() implies prefix@.is_prefix_of(#[trigger] r[t].0)
                && self@.contains_key(r[t].0) && self@[r[t].0] == r[t].1 by {
                assert(r[t] == s[idx[t]]);
                assert(Seq::<u8>::empty() =~= s[idx[t]].0.subrange(0, 0));
            }
            assert forall|k: Seq<u8>| self@.contains_key(k) && prefix@.is_prefix_of(k) implies exists|
                t: int,
            | 0 <= t < r.len() && (#[trigger] r[t].0) == k by {
                lemma_empty_prefix(k);
                let j = choose|j: int| 0 <= j < s.len() && (#[trigger] s[j].0) == k;
                let t = choose|t: int| 0 <= t < idx.len() && idx[t] == j;
                assert(r[t] == s[idx[t]]);
            }
        }
        out
    }

    /// Whether `c` holds in the store.
    fn check(&self, c: &Compare) -> (r: bool)
        requires
            self.wf(),
        ensures
            r == compare_holds(self@, *c),
    {
        match c {
            Compare::ValueIs { key, value } => match self.get(key.as_slice()) {
                Some(v) => compare_keys(v.as_slice(), value.as_slice()) == KeyOrder::Equal,
                None => false,
            },
            Compare::Absent { key } => {
                let (_, found) = self.position(key.as_slice());
                !found
            },
        }
    }

    /// Runs a transaction atomically: tests every compare, then applies the
    /// success branch when all hold and the failure branch otherwise.
    pub fn txn(&mut self, t: &Txn) -> (r: TxnResult)
        requires
            old(self).wf(),
        ensures
            final(self).wf(),
            r.succeeded == all_hold(old(self)@, t.compares@),
            final(self)@ == txn_outcome(old(self)@, *t),
            responses_view(r.responses@) == echoes(
                old(self)@,
                if r.succeeded {
                    t.success@
                } else {
                    t.failure@
                },
            ),
    {
        let mut holds = true;
        let mut i: usize = 0;
        while holds && i < t.compares.len()
            invariant
                self.wf(),
                0 <= i <= t.compares@.len(),
                holds ==> forall|j: int| 0 <= j < i ==> compare_holds(self@, #[trigger] t.compares@[j]),
                !holds ==> !all_hold(self@, t.compares@),
            decreases t.compares.len() - i + (if holds {
                1int
            } else {
                0int
            }),
        {
            if !self.check(&t.compares[i]) {
                holds = false;
                assert(!compare_holds(self@, t.compares@[i as int]));
            } else {
                i = i + 1;
            }
        }
        let ops = if holds {
            &t.success
        } else {
            &t.failure
        };
        let ghost m0 = self@;
        let mut responses: Vec<Option<Vec<u8>>> = Vec::new();
        let mut i: usize = 0;
        while i < ops.len()
            invariant
                self.wf(),
                0 <= i <= ops@.len(),
                self@ == apply_ops(m0, ops@.take(i as int)),
                responses_view(responses@) == echoes(m0, ops@.take(i as int)),
            decreases ops.len() - i,
        {
            let ghost before = self@;
            let prior = match &ops[i] {
                TxnOp::Put { key, value } => self.put(key.as_slice(), value.as_slice()),
                TxnOp::Delete { key } => {
                    let p = self.get(key.as_slice());
                    let _ = self.delete(key.as_slice());
                    p
                },
                TxnOp::Get { key } => self.get(key.as_slice()),
            };
            let ghost old_responses = responses@;
            responses.push(prior);
            proof {
                assert(ops@.take(i + 1).drop_last() =~= ops@.take(i as int));
                assert(responses_view(responses@) =~= responses_view(old_responses).push(
                    opt_view(prior),
                ));
            }
            i = i + 1;
        }
        assert(ops@.take(ops@.len() as int) =~= ops@);
        TxnResult { succeeded: holds, responses }
    }

    /// Removes every entry.
    pub fn reset(&mut self)
        ensures
            final(self).wf(),
            final(self)@ == Map::<Seq<u8>, Seq<u8>>::empty(),
    {
        self.entries = Vec::new();
        self.contents = Ghost(Map::empty());
        assert(pairs_view(self.entries@) =~= Seq::empty());
    }
}

} // verus!
