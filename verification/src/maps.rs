//! Walking over hash maps.
use std::collections::HashMap;
use vstd::prelude::*;
use vstd::std_specs::hash::spec_keys_iter;
use vstd::std_specs::iter::IteratorSpec;

verus! {

broadcast use vstd::std_specs::hash::group_hash_axioms;

/// The keys of a map, in some order.
pub fn keys_of<V>(m: &HashMap<u128, V>) -> (r: Vec<u128>)
    ensures
        r@.no_duplicates(),
        forall|k: u128| r@.contains(k) <==> m@.contains_key(k),
{
    let mut out: Vec<u128> = Vec::new();
    let ghost all = spec_keys_iter(m).remaining();
    for k in it: m.keys()
        invariant
            it.seq() == all,
            all.no_duplicates(),
            all.unref().to_set() == m@.dom(),
            out@ == all.unref().take(it.index() as int),
    {
        let ghost i = it.index() as int;
        proof {
            assert(all.unref().take(i + 1) =~= all.unref().take(i).push(*k));
        }
        out.push(*k);
    }
    proof {
        assert(all.unref().take(all.len() as int) =~= all.unref());
        assert(out@.to_set() =~= m@.dom());
        assert forall|k: u128| out@.contains(k) <==> m@.contains_key(k) by {
            assert(out@.to_set().contains(k) <==> out@.contains(k));
        }
    }
    out
}

} // verus!
