//! The contents of ordered collections of 32-bit numbers, smallest first.

use std::collections::BTreeMap;
use vstd::prelude::*;

verus! {

/// What maps keyed by numbers do.
pub broadcast group group_numbers {
    vstd::laws_cmp::group_laws_cmp,
    vstd::std_specs::btree::group_btree_axioms,
}

/// Every number is less than those after it.
pub open spec fn increasing(s: Seq<u32>) -> bool {
    forall|i: int, j: int| 0 <= i < j < s.len() ==> s[i] < s[j]
}

/// The keys of a map, smallest first.
pub fn keys_of<V>(m: &BTreeMap<u32, V>) -> (keys: Vec<u32>)
    ensures
        increasing(keys@),
        keys@.to_set() == m@.dom(),
{
    broadcast use vstd::std_specs::btree::group_btree_axioms;

    let mut keys: Vec<u32> = Vec::new();
    let entries = m.iter();
    let ghost all = vstd::std_specs::iter::IteratorSpec::remaining(&entries);
    let ghost names = all.map_values(|kv: (&u32, &V)| *kv.0);
    proof {
        lemma_numbers_are_ordered();
    }
    for entry in it: entries
        invariant
            it.seq() == all,
            names == all.map_values(|kv: (&u32, &V)| *kv.0),
            keys@ == names.take(it.index() as int),
    {
        assert(names.take(it.index() + 1) =~= names.take(it.index() as int).push(*entry.0));
        keys.push(*entry.0);
    }
    proof {
        assert(keys@ =~= names);
        lemma_increasing(names);
        assert forall|k: u32| names.contains(k) <==> m@.contains_key(k) by {
            if m@.contains_key(k) {
                let i = choose|i: int| 0 <= i < all.len() && all[i] == (&k, &m@[k]);
                assert(names[i] == k);
            }
            if names.contains(k) {
                let i = choose|i: int| 0 <= i < names.len() && names[i] == k;
                assert(m@.contains_key(*all[i].0));
            }
        }
        assert(keys@.to_set() =~= m@.dom());
    }
    keys
}

proof fn lemma_increasing(s: Seq<u32>)
    requires
        vstd::std_specs::btree::increasing_seq(s),
    ensures
        increasing(s),
{
    broadcast use vstd::std_specs::btree::group_btree_axioms;

    lemma_numbers_are_ordered();
    assert forall|i: int, j: int| 0 <= i < j < s.len() implies s[i] < s[j] by {
        assert(vstd::std_specs::cmp::OrdSpec::cmp_spec(&s[i], &s[j]) is Less);
    }
}

proof fn lemma_numbers_are_ordered()
    ensures
        vstd::laws_cmp::obeys_cmp::<u32>(),
{
    broadcast use vstd::laws_cmp::group_laws_cmp;

}

} // verus!
