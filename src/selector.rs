use vstd::prelude::*;

use crate::error::Error;

verus! {

broadcast use vstd::seq_lib::group_to_multiset_ensures, vstd::multiset::group_multiset_axioms;

/// A storage node that may receive regions.
pub struct Candidate {
    pub node_id: u64,
    pub addr: String,
    pub active_region_count: u64,
    pub load_score: u64,
    /// The instant its lease runs out; at that instant it counts as expired.
    pub lease_expire_at: u64,
}

/// The ranking strategy, chosen once from configuration.
#[derive(Debug, Clone, Copy, PartialEq, Eq, Structural)]
pub enum SelectorType {
    /// Most recently renewed lease first.
    LeaseBased,
    /// Lowest load first.
    LoadBased,
}

/// A candidate whose lease is still running at `now`.
pub open spec fn is_live(c: Candidate, now: u64) -> bool {
    c.lease_expire_at > now
}

/// The candidates live at `now`, as a predicate.
pub open spec fn live_at(now: u64) -> spec_fn(Candidate) -> bool {
    |c: Candidate| is_live(c, now)
}

/// The first component of a candidate's rank; smaller ranks first.
pub open spec fn primary_rank(t: SelectorType, c: Candidate) -> int {
    match t {
        SelectorType::LeaseBased => -(c.lease_expire_at as int),
        SelectorType::LoadBased => c.load_score as int,
    }
}

/// `a` ranks strictly before `b`: by the strategy's measure, then by node id.
pub open spec fn ranks_before(t: SelectorType, a: Candidate, b: Candidate) -> bool {
    primary_rank(t, a) < primary_rank(t, b) || (primary_rank(t, a) == primary_rank(t, b)
        && a.node_id < b.node_id)
}

/// No candidate of `s` ranks strictly before one that precedes it.
pub open spec fn in_rank_order(t: SelectorType, s: Seq<Candidate>) -> bool {
    forall|i: int, j: int| 0 <= i < j < s.len() ==> !ranks_before(t, #[trigger] s[j], #[trigger] s[i])
}

/// No two candidates of `s` share a node id.
pub open spec fn distinct_nodes(s: Seq<Candidate>) -> bool {
    forall|i: int, j: int|
        0 <= i < j < s.len() ==> (#[trigger] s[i]).node_id != (#[trigger] s[j]).node_id
}

/// `r` is a selection from `snapshot` at `now`: its live candidates, each
/// once, in rank order.
pub open spec fn is_selection(
    t: SelectorType,
    snapshot: Seq<Candidate>,
    now: u64,
    r: Seq<Candidate>,
) -> bool {
    &&& in_rank_order(t, r)
    &&& r.to_multiset() == snapshot.filter(live_at(now)).to_multiset()
}

fn rank_key(t: SelectorType, c: &Candidate) -> (r: (u64, bool))
    ensures
        r.1 == (t == SelectorType::LeaseBased),
        r.1 ==> r.0 == c.lease_expire_at,
        !r.1 ==> r.0 == c.load_score,
{
    match t {
        SelectorType::LeaseBased => (c.lease_expire_at, true),
        SelectorType::LoadBased => (c.load_score, false),
    }
}

fn ranks_before_exec(t: SelectorType, a: &Candidate, b: &Candidate) -> (r: bool)
    ensures
        r == ranks_before(t, *a, *b),
{
    let (ka, desc) = rank_key(t, a);
    let (kb, _) = rank_key(t, b);
    if ka == kb {
        a.node_id < b.node_id
    } else if desc {
        ka > kb
    } else {
        ka < kb
    }
}

/// Ranks the live candidates of a snapshot; expired ones are left out.
pub fn select(t: SelectorType, candidates: Vec<Candidate>, now: u64) -> (r: Vec<Candidate>)
    ensures
        is_selection(t, candidates@, now, r@),
{
    let ghost live = live_at(now);
    let ghost orig = candidates@;
    let mut rest = candidates;
    let mut out: Vec<Candidate> = Vec::new();
    while rest.len() > 0
        invariant
            in_rank_order(t, out@),
            out@.to_multiset().add(rest@.filter(live_at(now)).to_multiset()) == orig.filter(live_at(now)).to_multiset(),
        decreases rest.len(),
    {
        let ghost before = rest@;
        let c = rest.pop().unwrap();
        proof {
            assert(before == rest@.push(c));
            before.drop_last().lemma_filter_push(c, live_at(now));
            assert(before.drop_last() == rest@);
        }
        if c.lease_expire_at > now {
            let mut pos: usize = 0;
            while pos < out.len() && !ranks_before_exec(t, &c, &out[pos])
                invariant
                    0 <= pos <= out@.len(),
                    forall|j: int| 0 <= j < pos ==> !ranks_before(t, c, #[trigger] out@[j]),
                decreases out.len() - pos,
            {
                pos = pos + 1;
            }
            let ghost o = out@;
            proof {
                vstd::seq_lib::to_multiset_build(rest@.filter(live_at(now)), c);
                assert(live_at(now)(c));
                assert(before.filter(live_at(now)) == rest@.filter(live_at(now)).push(c));
            }
            out.insert(pos, c);
            proof {
                assert(out@ == o.insert(pos as int, c));
                assert forall|i: int, j: int| 0 <= i < j < out@.len() implies !ranks_before(
                    t,
                    #[trigger] out@[j],
                    #[trigger] out@[i],
                ) by {
                    if j < pos {
                        assert(out@[i] == o[i] && out@[j] == o[j]);
                    } else if j == pos {
                        assert(out@[i] == o[i]);
                    } else if i == pos {
                        assert(out@[j] == o[j - 1]);
                        assert(ranks_before(t, c, o[pos as int]));
                        if j - 1 > pos {
                            assert(!ranks_before(t, o[j - 1], o[pos as int]));
                        }
                    } else if i < pos {
                        assert(out@[i] == o[i] && out@[j] == o[j - 1]);
                    } else {
                        assert(out@[i] == o[i - 1] && out@[j] == o[j - 1]);
                    }
                }
                vstd::seq_lib::to_multiset_insert(o, pos as int, c);
                assert(out@.to_multiset().add(rest@.filter(live_at(now)).to_multiset()) =~= orig.filter(live_at(now)).to_multiset());
            }
        } else {
            proof {
                assert(!live_at(now)(c));
                assert(before.filter(live_at(now)) == rest@.filter(live_at(now)));
                assert(out@.to_multiset().add(rest@.filter(live_at(now)).to_multiset()) =~= orig.filter(live_at(now)).to_multiset());
            }
        }
    }
    proof {
        assert(rest@.filter(live_at(now)) =~= Seq::<Candidate>::empty());
        assert(out@.to_multiset().add(rest@.filter(live_at(now)).to_multiset()) =~= out@.to_multiset());
    }
    out
}

/// Takes the first `required` candidates of a selection; fewer than that is
/// an error that names both counts.
pub fn pick(selection: Vec<Candidate>, required: usize) -> (r: Result<Vec<Candidate>, Error>)
    ensures
        selection@.len() >= required ==> (r matches Ok(v) && v@ == selection@.take(
            required as int,
        )),
        selection@.len() < required ==> (r matches Err(Error::NoEnoughAvailableDatanode {
            expected,
            available,
        }) && expected == required && available == selection@.len()),
{
    if selection.len() < required {
        return Err(
            Error::NoEnoughAvailableDatanode { expected: required, available: selection.len() },
        );
    }
    let mut v = selection;
    v.truncate(required);
    Ok(v)
}

proof fn lemma_rank_order_unique(t: SelectorType, a: Seq<Candidate>, b: Seq<Candidate>)
    requires
        in_rank_order(t, a),
        in_rank_order(t, b),
        distinct_nodes(a),
        a.to_multiset() == b.to_multiset(),
    ensures
        a == b,
    decreases a.len(),
{
    vstd::seq_lib::to_multiset_len(a);
    vstd::seq_lib::to_multiset_len(b);
    if a.len() > 0 {
        let x = a[0];
        let y = b[0];
        vstd::seq_lib::to_multiset_contains(a, x);
        vstd::seq_lib::to_multiset_contains(b, x);
        vstd::seq_lib::to_multiset_contains(a, y);
        vstd::seq_lib::to_multiset_contains(b, y);
        let jb = choose|j: int| 0 <= j < b.len() && b[j] == x;
        let ja = choose|j: int| 0 <= j < a.len() && a[j] == y;
        if jb > 0 {
            assert(!ranks_before(t, b[jb], b[0]));
        }
        if ja > 0 {
            assert(!ranks_before(t, a[ja], a[0]));
        }
        if ja != 0 {
            assert(a[ja].node_id == a[0].node_id);
        }
        assert(x == y);
        vstd::seq_lib::to_multiset_remove(a, 0);
        vstd::seq_lib::to_multiset_remove(b, 0);
        assert(a.remove(0) =~= a.drop_first());
        assert(b.remove(0) =~= b.drop_first());
        assert forall|i: int, j: int| 0 <= i < j < a.drop_first().len() implies !ranks_before(
            t,
            #[trigger] a.drop_first()[j],
            #[trigger] a.drop_first()[i],
        ) by {
            assert(a.drop_first()[j] == a[j + 1] && a.drop_first()[i] == a[i + 1]);
        }
        assert forall|i: int, j: int| 0 <= i < j < b.drop_first().len() implies !ranks_before(
            t,
            #[trigger] b.drop_first()[j],
            #[trigger] b.drop_first()[i],
        ) by {
            assert(b.drop_first()[j] == b[j + 1] && b.drop_first()[i] == b[i + 1]);
        }
        assert forall|i: int, j: int| 0 <= i < j < a.drop_first().len() implies (#[trigger] a.drop_first()[i]).node_id
            != (#[trigger] a.drop_first()[j]).node_id by {
            assert(a.drop_first()[j] == a[j + 1] && a.drop_first()[i] == a[i + 1]);
        }
        lemma_rank_order_unique(t, a.drop_first(), b.drop_first());
        assert forall|i: int| 0 <= i < a.len() implies a[i] == b[i] by {
            if i > 0 {
                assert(a[i] == a.drop_first()[i - 1] && b[i] == b.drop_first()[i - 1]);
            }
        }
        assert(a =~= b);
    }
}

/// Selection is deterministic: on a snapshot with one entry per node, any
/// two results that meet `select`'s contract are the same sequence.
pub proof fn lemma_select_deterministic(
    t: SelectorType,
    snapshot: Seq<Candidate>,
    now: u64,
    r1: Seq<Candidate>,
    r2: Seq<Candidate>,
)
    requires
        distinct_nodes(snapshot),
        is_selection(t, snapshot, now, r1),
        is_selection(t, snapshot, now, r2),
    ensures
        r1 == r2,
{
    let live = live_at(now);
    let f = snapshot.filter(live);
    assert forall|i: int, j: int| 0 <= i < j < r1.len() implies (#[trigger] r1[i]).node_id
        != (#[trigger] r1[j]).node_id by {
        if r1[i].node_id == r1[j].node_id {
            lemma_in_filter(snapshot, live, r1, i);
            lemma_in_filter(snapshot, live, r1, j);
            let a = choose|a: int| 0 <= a < snapshot.len() && snapshot[a] == r1[i];
            let b = choose|b: int| 0 <= b < snapshot.len() && snapshot[b] == r1[j];
            if a == b {
                lemma_two_copies(r1, i, j);
                lemma_count_in_filter_at_most_one(snapshot, live, a);
            }
        }
    }
    lemma_rank_order_unique(t, r1, r2);
}

proof fn lemma_in_filter(
    s: Seq<Candidate>,
    p: spec_fn(Candidate) -> bool,
    r: Seq<Candidate>,
    i: int,
)
    requires
        r.to_multiset() == s.filter(p).to_multiset(),
        0 <= i < r.len(),
    ensures
        exists|a: int| 0 <= a < s.len() && s[a] == r[i],
{
    vstd::seq_lib::to_multiset_contains(r, r[i]);
    vstd::seq_lib::to_multiset_contains(s.filter(p), r[i]);
    let k = choose|k: int| 0 <= k < s.filter(p).len() && s.filter(p)[k] == r[i];
    s.lemma_filter_contains_rev(p, r[i]);
}

proof fn lemma_two_copies(r: Seq<Candidate>, i: int, j: int)
    requires
        0 <= i < j < r.len(),
        r[i] == r[j],
    ensures
        r.to_multiset().count(r[i]) >= 2,
{
    let x = r[i];
    vstd::seq_lib::to_multiset_remove(r, j);
    vstd::seq_lib::to_multiset_contains(r.remove(j), x);
    assert(r.remove(j)[i] == x);
}

proof fn lemma_count_in_filter_at_most_one(s: Seq<Candidate>, p: spec_fn(Candidate) -> bool, a: int)
    requires
        distinct_nodes(s),
        0 <= a < s.len(),
    ensures
        s.filter(p).to_multiset().count(s[a]) <= 1,
    decreases s.len(),
{
    if s.len() > 0 {
        let init = s.drop_last();
        let last = s.last();
        init.lemma_filter_push(last, p);
        assert(init.push(last) == s);
        assert forall|i: int, j: int| 0 <= i < j < init.len() implies (#[trigger] init[i]).node_id
            != (#[trigger] init[j]).node_id by {
            assert(init[i] == s[i] && init[j] == s[j]);
        }
        if a < s.len() - 1 {
            lemma_count_in_filter_at_most_one(init, p, a);
            assert(init[a] == s[a]);
            assert(last != s[a]);
        } else {
            lemma_not_in_filter(init, p, last);
        }
    }
}

proof fn lemma_not_in_filter(s: Seq<Candidate>, p: spec_fn(Candidate) -> bool, x: Candidate)
    requires
        forall|i: int| 0 <= i < s.len() ==> (#[trigger] s[i]).node_id != x.node_id,
    ensures
        s.filter(p).to_multiset().count(x) == 0,
{
    vstd::seq_lib::to_multiset_contains(s.filter(p), x);
    if s.filter(p).contains(x) {
        let k = choose|k: int| 0 <= k < s.filter(p).len() && s.filter(p)[k] == x;
        s.lemma_filter_contains_rev(p, x);
    }
}

} // verus!
