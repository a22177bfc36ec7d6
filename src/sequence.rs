use vstd::prelude::*;

use crate::codec::{counter_bytes, counter_of, decode_counter, encode_counter, lemma_counter_round_trip};
use crate::error::Error;
use crate::keys::copy_bytes;
use crate::kv::{all_hold, apply_ops, lookup, opt_view, Compare, MemStore, Txn, TxnOp};

verus! {

/// How many times `next` retries a compare-and-swap that lost a race.
pub const MAX_ATTEMPTS: usize = 3;

/// A named counter: `start` is its first value and `step` the distance
/// between two values handed out in turn.
pub struct Sequence {
    pub name: Vec<u8>,
    pub start: u64,
    pub step: u64,
}

/// The value a counter stands at: `start` while nothing is stored, `None`
/// when what is stored is not a counter.
pub open spec fn current_value(stored: Option<Seq<u8>>, start: u64) -> Option<u64> {
    match stored {
        None => Some(start),
        Some(b) => if b.len() == 8 {
            Some(counter_of(b))
        } else {
            None
        },
    }
}

/// Whether a counter standing at `cur` can hand out `cur` and move on by
/// `step` without leaving the range of `u64`.
pub open spec fn can_advance(cur: u64, step: u64) -> bool {
    cur + step <= u64::MAX
}

/// The value that `next` hands out on store `m`, if it succeeds there.
pub open spec fn next_value(m: Map<Seq<u8>, Seq<u8>>, s: Sequence) -> Option<u64> {
    match current_value(lookup(m, s.name@), s.start) {
        Some(cur) => if can_advance(cur, s.step) {
            Some(cur)
        } else {
            None
        },
        None => None,
    }
}

/// The store after a successful `next`.
pub open spec fn next_store(m: Map<Seq<u8>, Seq<u8>>, s: Sequence) -> Map<Seq<u8>, Seq<u8>> {
    m.insert(s.name@, counter_bytes((next_value(m, s).unwrap() + s.step) as u64))
}

/// The values handed out by `n` successive `next` calls on store `m`, up to
/// the first call that fails.
pub open spec fn next_run(m: Map<Seq<u8>, Seq<u8>>, s: Sequence, n: nat) -> Seq<u64>
    decreases n,
{
    if n == 0 {
        Seq::empty()
    } else {
        match next_value(m, s) {
            Some(v) => seq![v] + next_run(next_store(m, s), s, (n - 1) as nat),
            None => Seq::empty(),
        }
    }
}

proof fn lemma_next_run_at_least(m: Map<Seq<u8>, Seq<u8>>, s: Sequence, n: nat, lo: u64)
    requires
        s.wf(),
        current_value(lookup(m, s.name@), s.start) matches Some(c) && c >= lo,
    ensures
        forall|i: int| 0 <= i < next_run(m, s, n).len() ==> #[trigger] next_run(m, s, n)[i] >= lo,
    decreases n,
{
    if n > 0 {
        if let Some(v) = next_value(m, s) {
            let m2 = next_store(m, s);
            lemma_counter_round_trip((v + s.step) as u64);
            assert(lookup(m2, s.name@) == Some(counter_bytes((v + s.step) as u64)));
            lemma_next_run_at_least(m2, s, (n - 1) as nat, lo);
            let run = next_run(m, s, n);
            let rest = next_run(m2, s, (n - 1) as nat);
            assert forall|i: int| 0 <= i < run.len() implies #[trigger] run[i] >= lo by {
                if i > 0 {
                    assert(run[i] == rest[i - 1]);
                }
            }
        }
    }
}

/// Successive `next` calls on one counter hand out strictly increasing
/// values, so no value is handed out twice.
pub proof fn lemma_next_strictly_increasing(m: Map<Seq<u8>, Seq<u8>>, s: Sequence, n: nat)
    requires
        s.wf(),
    ensures
        forall|i: int, j: int|
            0 <= i < j < next_run(m, s, n).len() ==> next_run(m, s, n)[i] < next_run(m, s, n)[j],
    decreases n,
{
    if n > 0 {
        if let Some(v) = next_value(m, s) {
            let m2 = next_store(m, s);
            lemma_counter_round_trip((v + s.step) as u64);
            assert(lookup(m2, s.name@) == Some(counter_bytes((v + s.step) as u64)));
            lemma_next_run_at_least(m2, s, (n - 1) as nat, (v + s.step) as u64);
            lemma_next_strictly_increasing(m2, s, (n - 1) as nat);
            let run = next_run(m, s, n);
            let rest = next_run(m2, s, (n - 1) as nat);
            assert forall|i: int, j: int| 0 <= i < j < run.len() implies run[i] < run[j] by {
                assert(run[j] == rest[j - 1]);
                if i > 0 {
                    assert(run[i] == rest[i - 1]);
                }
            }
        }
    }
}

/// Successive values of a counter are exactly `step` apart.
pub proof fn lemma_next_steps_by_step(m: Map<Seq<u8>, Seq<u8>>, s: Sequence, n: nat)
    requires
        s.wf(),
    ensures
        forall|i: int|
            0 <= i < next_run(m, s, n).len() - 1 ==> #[trigger] next_run(m, s, n)[i + 1]
                == next_run(m, s, n)[i] + s.step,
    decreases n,
{
    if n > 0 {
        if let Some(v) = next_value(m, s) {
            let m2 = next_store(m, s);
            lemma_counter_round_trip((v + s.step) as u64);
            assert(lookup(m2, s.name@) == Some(counter_bytes((v + s.step) as u64)));
            lemma_next_steps_by_step(m2, s, (n - 1) as nat);
            let run = next_run(m, s, n);
            let rest = next_run(m2, s, (n - 1) as nat);
            assert forall|i: int| 0 <= i < run.len() - 1 implies #[trigger] run[i + 1] == run[i]
                + s.step by {
                assert(run[i + 1] == rest[i]);
                if i > 0 {
                    assert(run[i] == rest[i - 1]);
                    assert(rest[(i - 1) + 1] == rest[i - 1] + s.step);
                } else {
                    assert(current_value(lookup(m2, s.name@), s.start) == Some((v + s.step) as u64));
                    assert(next_value(m2, s) == Some((v + s.step) as u64));
                    let n1 = (n - 1) as nat;
                    assert(n1 > 0);
                    assert(rest == seq![(v + s.step) as u64] + next_run(
                        next_store(m2, s),
                        s,
                        (n1 - 1) as nat,
                    ));
                    assert(run[0] == v);
                }
            }
        }
    }
}

impl Sequence {
    pub open spec fn wf(&self) -> bool {
        self.step > 0
    }

    /// A counter named `name`; a step of zero is refused, as it would hand
    /// out the same value twice.
    pub fn new(name: Vec<u8>, start: u64, step: u64) -> (r: Result<Sequence, Error>)
        ensures
            step > 0 <==> r is Ok,
            r matches Ok(s) ==> s.wf() && s.name@ == name@ && s.start == start && s.step == step,
            r matches Err(e) ==> e is InvalidArguments,
    {
        if step == 0 {
            Err(Error::InvalidArguments { err_msg: "a sequence step must be positive".to_string() })
        } else {
            Ok(Sequence { name, start, step })
        }
    }

    /// One attempt of `next` against whatever the store held under the
    /// counter's name: the value to hand out, and the compare-and-swap
    /// transaction that moves the counter on provided no one else moved it
    /// first.
    pub fn next_attempt(&self, stored: Option<&[u8]>) -> (r: Result<(u64, Txn), Error>)
        ensures
            ({
                let st = match stored {
                    Some(b) => Some(b@),
                    None => None,
                };
                match current_value(st, self.start) {
                    None => r matches Err(e) && e is UnexpectedSequenceValue,
                    Some(cur) => if can_advance(cur, self.step) {
                        r matches Ok((v, t)) && v == cur && t.compares@.len() == 1
                            && t.success@.len() == 1 && t.failure@.len() == 0
                            && (forall|m: Map<Seq<u8>, Seq<u8>>|
                            lookup(m, self.name@) == st ==> #[trigger] all_hold(m, t.compares@))
                            && (forall|m: Map<Seq<u8>, Seq<u8>>|
                            all_hold(m, t.compares@) ==> lookup(m, self.name@) == st)
                            && (forall|m: Map<Seq<u8>, Seq<u8>>|
                            #[trigger] apply_ops(m, t.success@) == m.insert(
                                self.name@,
                                counter_bytes((cur + self.step) as u64),
                            ))
                    } else {
                        r matches Err(e) && e is SequenceOutOfRange
                    },
                }
            }),
    {
        let (cur, compare) = match stored {
            None => (self.start, Compare::Absent { key: copy_bytes(self.name.as_slice()) }),
            Some(b) => {
                if b.len() != 8 {
                    return Err(
                        Error::UnexpectedSequenceValue {
                            seq_name: copy_bytes(self.name.as_slice()),
                            value: copy_bytes(b),
                        },
                    );
                }
                (
                    decode_counter(b),
                    Compare::ValueIs { key: copy_bytes(self.name.as_slice()), value: copy_bytes(b) },
                )
            },
        };
        if cur > u64::MAX - self.step {
            return Err(
                Error::SequenceOutOfRange {
                    seq_name: copy_bytes(self.name.as_slice()),
                    start: self.start,
                    step: self.step,
                },
            );
        }
        let put = TxnOp::Put { key: copy_bytes(self.name.as_slice()), value: encode_counter(cur + self.step) };
        let t = Txn { compares: vec![compare], success: vec![put], failure: Vec::new() };
        proof {
            let st = match stored {
                Some(b) => Some(b@),
                None => None::<Seq<u8>>,
            };
            assert forall|m: Map<Seq<u8>, Seq<u8>>|
                lookup(m, self.name@) == st implies #[trigger] all_hold(m, t.compares@) by {
                assert(t.compares@[0] == compare);
            }
            assert forall|m: Map<Seq<u8>, Seq<u8>>| all_hold(m, t.compares@) implies lookup(
                m,
                self.name@,
            ) == st by {
                assert(t.compares@[0] == compare);
                assert(crate::kv::compare_holds(m, t.compares@[0]));
            }
            assert forall|m: Map<Seq<u8>, Seq<u8>>|
                #[trigger] apply_ops(m, t.success@) == m.insert(
                    self.name@,
                    counter_bytes((cur + self.step) as u64),
                ) by {
                assert(t.success@.drop_last() =~= Seq::<TxnOp>::empty());
                assert(apply_ops(m, t.success@.drop_last()) == m);
                assert(t.success@.last() == put);
            }
        }
        Ok((cur, t))
    }

    /// Hands out the counter's current value and moves it on by `step`,
    /// with a compare-and-swap that is retried when another writer raced.
    pub fn next(&self, store: &mut MemStore) -> (r: Result<u64, Error>)
        requires
            old(store).wf(),
        ensures
            final(store).wf(),
            match next_value(old(store)@, *self) {
                Some(v) => r == Ok::<u64, Error>(v) && final(store)@ == next_store(old(store)@, *self),
                None => final(store)@ == old(store)@ && match current_value(
                    lookup(old(store)@, self.name@),
                    self.start,
                ) {
                    None => r matches Err(e) && e is UnexpectedSequenceValue,
                    Some(_) => r matches Err(e) && e is SequenceOutOfRange,
                },
            },
    {
        let mut attempt: usize = 0;
        while attempt < MAX_ATTEMPTS
            invariant
                store.wf(),
                *store == *old(store),
                attempt == 0,
            decreases MAX_ATTEMPTS - attempt,
        {
            let stored = store.get(self.name.as_slice());
            let plan = match &stored {
                Some(b) => self.next_attempt(Some(b.as_slice())),
                None => self.next_attempt(None),
            };
            assert(opt_view(stored) == lookup(store@, self.name@));
            match plan {
                Err(e) => {
                    return Err(e);
                },
                Ok((v, t)) => {
                    let res = store.txn(&t);
                    if res.succeeded {
                        return Ok(v);
                    }
                    attempt = attempt + 1;
                },
            }
        }
        Err(Error::ExceededRetryLimit { func_name: "next".to_string(), retry_num: MAX_ATTEMPTS })
    }
}

} // verus!
