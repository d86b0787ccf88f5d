//! What the standard collections leave to be said.

use std::collections::HashMap;
use std::hash::Hash;
use vstd::prelude::*;
use vstd::std_specs::hash::{builds_valid_hashers, obeys_key_model};
use vstd::std_specs::iter::IteratorSpec;

verus! {

/// The keys of a map, each once, in no particular order.
pub fn keys_of<K: Copy + Eq + Hash, V>(m: &HashMap<K, V>) -> (r: Vec<K>)
    requires
        obeys_key_model::<K>(),
        builds_valid_hashers::<std::hash::RandomState>(),
    ensures
        r@.no_duplicates(),
        r@.len() == m@.dom().len(),
        forall|k: K| r@.contains(k) <==> #[trigger] m@.contains_key(k),
{
    broadcast use vstd::std_specs::hash::group_hash_axioms;

    let mut out: Vec<K> = Vec::new();
    let ghost all = vstd::std_specs::hash::spec_keys_iter(m).remaining();
    for k in it: m.keys()
        invariant
            it.seq() == all,
            all.unref().to_set() == m@.dom(),
            all.no_duplicates(),
            all.len() == m@.dom().len(),
            out@ =~= all.unref().take(it.index()),
    {
        out.push(*k);
    }
    proof {
        assert(out@ =~= all.unref());
        assert forall|k: K| out@.contains(k) <==> #[trigger] m@.contains_key(k) by {
            assert(out@.to_set().contains(k) <==> m@.dom().contains(k));
        }
        assert forall|i: int, j: int| 0 <= i < out@.len() && 0 <= j < out@.len() && i
            != j implies out@[i] != out@[j] by {
            assert(all[i] != all[j]);
        }
    }
    out
}

} // verus!
