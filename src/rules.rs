use vstd::prelude::*;

use crate::keys::{compare_keys, copy_bytes, KeyOrder};

verus! {

/// The names of a list of optimizer rules.
pub open spec fn names_view(v: Seq<Vec<u8>>) -> Seq<Seq<u8>> {
    v.map_values(|r: Vec<u8>| r@)
}

/// Index of the first entry of `s` from `i` on that equals `name`; -1 if none.
pub open spec fn first_index_from(s: Seq<Seq<u8>>, name: Seq<u8>, i: int) -> int
    decreases s.len() - i,
{
    if i < 0 || i >= s.len() {
        -1
    } else if s[i] == name {
        i
    } else {
        first_index_from(s, name, i + 1)
    }
}

/// `s` without its first entry equal to `name`.
pub open spec fn without_first(s: Seq<Seq<u8>>, name: Seq<u8>) -> Seq<Seq<u8>> {
    let k = first_index_from(s, name, 0);
    if k >= 0 {
        s.remove(k)
    } else {
        s
    }
}

/// `s` after removing the first entry named by each of `names`, in order.
pub open spec fn without_each(s: Seq<Seq<u8>>, names: Seq<Seq<u8>>) -> Seq<Seq<u8>>
    decreases names.len(),
{
    if names.len() == 0 {
        s
    } else {
        without_first(without_each(s, names.drop_last()), names.last())
    }
}

/// Removes the first rule called `name`, if there is one.
pub fn remove_physical_optimize_rule(rules: &mut Vec<Vec<u8>>, name: &[u8])
    ensures
        names_view(final(rules)@) == without_first(names_view(old(rules)@), name@),
{
    let ghost s = names_view(rules@);
    let mut i: usize = 0;
    while i < rules.len()
        invariant
            s == names_view(rules@),
            rules@ == old(rules)@,
            0 <= i <= rules@.len(),
            first_index_from(s, name@, 0) == first_index_from(s, name@, i as int),
        decreases rules.len() - i,
    {
        if compare_keys(rules[i].as_slice(), name) == KeyOrder::Equal {
            assert(s[i as int] == name@);
            assert(first_index_from(s, name@, i as int) == i);
            let _ = rules.remove(i);
            assert(names_view(rules@) =~= s.remove(i as int));
            return;
        }
        assert(s[i as int] != name@);
        i = i + 1;
    }
}

/// Moves the rules named by `names` to the front, in that order: the first
/// rule of each name is taken out of `rules`, then all of `names` are put
/// before what is left.
pub fn place_first(rules: &mut Vec<Vec<u8>>, names: &Vec<Vec<u8>>)
    ensures
        names_view(final(rules)@) == names_view(names@) + without_each(
            names_view(old(rules)@),
            names_view(names@),
        ),
{
    let ghost s0 = names_view(rules@);
    let ghost ns = names_view(names@);
    let mut i: usize = 0;
    while i < names.len()
        invariant
            ns == names_view(names@),
            0 <= i <= names@.len(),
            names_view(rules@) == without_each(s0, ns.take(i as int)),
        decreases names.len() - i,
    {
        remove_physical_optimize_rule(rules, names[i].as_slice());
        assert(ns.take(i + 1).drop_last() =~= ns.take(i as int));
        i = i + 1;
    }
    assert(ns.take(names@.len() as int) =~= ns);
    let ghost rest = names_view(rules@);
    let mut j: usize = names.len();
    while j > 0
        invariant
            ns == names_view(names@),
            0 <= j <= names@.len(),
            names_view(rules@) == ns.subrange(j as int, ns.len() as int) + rest,
        decreases j,
    {
        j = j - 1;
        let n = copy_bytes(names[j].as_slice());
        let ghost before = names_view(rules@);
        rules.insert(0, n);
        assert(names_view(rules@) =~= before.insert(0, ns[j as int]));
        assert(names_view(rules@) =~= ns.subrange(j as int, ns.len() as int) + rest);
    }
    assert(ns.subrange(0, ns.len() as int) =~= ns);
}

} // verus!
