//! Reading a map of line numbers to hit counts out in ascending line order.
use vstd::prelude::*;
use std::collections::BTreeMap;
use std::collections::btree_map;
use vstd::std_specs::iter::IteratorSpec;
use vstd::std_specs::cmp::OrdSpec;

verus! {

broadcast use vstd::std_specs::btree::group_btree_axioms;

/// The maps of this module order their keys as the integers they are.
pub proof fn lemma_line_keys_are_ordered()
    ensures
        vstd::std_specs::btree::key_obeys_cmp_spec::<u64>(),
{
    broadcast use vstd::laws_cmp::group_laws_cmp;
}

proof fn lemma_ascending_iteration(iter: btree_map::Iter<'_, u64, u64>)
    requires
        vstd::std_specs::btree::increasing_seq(iter.remaining().map_values(|kv: (&u64, &u64)| *kv.0)),
    ensures
        forall|i: int, j: int|
            0 <= i < j < iter.remaining().len() ==> *iter.remaining()[i].0 < *iter.remaining()[j].0,
{
    broadcast use vstd::laws_cmp::group_laws_cmp;

    let r = iter.remaining();
    let keys = r.map_values(|kv: (&u64, &u64)| *kv.0);
    assert forall|i: int, j: int| 0 <= i < j < r.len() implies *r[i].0 < *r[j].0 by {
        assert(keys[i] == *r[i].0);
        assert(keys[j] == *r[j].0);
        assert(vstd::laws_cmp::obeys_cmp::<u64>());
        assert(keys[i].cmp_spec(&keys[j]) is Less);
    }
}

/// The entries of `m`, ascending by key.
pub fn entries_ascending(m: &BTreeMap<u64, u64>) -> (out: Vec<(u64, u64)>)
    ensures
        forall|i: int| 0 <= i < out.len() ==> #[trigger] m@.contains_key(out@[i].0) && m@[out@[i].0] == out@[i].1,
        forall|k: u64| #[trigger] m@.contains_key(k) ==> exists|i: int| 0 <= i < out.len() && out@[i].0 == k,
        forall|i: int, j: int| 0 <= i < j < out.len() ==> out@[i].0 < out@[j].0,
{
    let mut out: Vec<(u64, u64)> = Vec::new();
    proof {
        lemma_line_keys_are_ordered();
    }
    let iter = m.iter();
    proof {
        lemma_ascending_iteration(iter);
    }
    for kv in it: iter
        invariant
            out.len() == it.index(),
            forall|i: int| 0 <= i < out.len() ==> out@[i] == (*it.seq()[i].0, *it.seq()[i].1),
            forall|i: int, j: int| 0 <= i < j < it.seq().len() ==> *it.seq()[i].0 < *it.seq()[j].0,
            it.seq() == vstd::std_specs::btree::spec_btree_map_iter(m).remaining(),
    {
        let (k, v) = kv;
        out.push((*k, *v));
    }
    proof {
        let r = vstd::std_specs::btree::spec_btree_map_iter(m).remaining();
        assert forall|k: u64| #[trigger] m@.contains_key(k) implies exists|i: int| 0 <= i < out.len() && out@[i].0 == k by {
            assert(r.contains((&k, &m@[k])));
            let i = choose|i: int| 0 <= i < r.len() && r[i] == (&k, &m@[k]);
            assert(out@[i].0 == k);
        }
    }
    out
}

} // verus!
