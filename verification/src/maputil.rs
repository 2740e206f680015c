//! Helpers for walking `HashMap`s keyed by integers.
use std::collections::HashMap;
use vstd::prelude::*;
use vstd::std_specs::iter::IteratorSpec;

verus! {

broadcast use vstd::std_specs::hash::group_hash_axioms;

/// Collects the keys of `m` into a vector, each key once.
pub fn keys_of<V>(m: &HashMap<u64, V>) -> (r: Vec<u64>)
    ensures
        r@.no_duplicates(),
        forall|k: u64| #[trigger] r@.contains(k) <==> m@.contains_key(k),
{
    let ghost ks = vstd::std_specs::hash::spec_keys_iter(m).remaining().unref();
    proof {
        assert(ks.no_duplicates());
        assert(ks.to_set() == m@.dom());
    }
    let mut out: Vec<u64> = Vec::new();
    for k in it: m.keys()
        invariant
            it.seq().unref() == ks,
            out@.len() == it.index(),
            out@ == ks.take(out@.len() as int),
    {
        out.push(*k);
        proof {
            assert(out@ =~= ks.take(out@.len() as int));
        }
    }
    proof {
        assert(out@ =~= ks);
        assert forall|k: u64| #[trigger] out@.contains(k) <==> m@.contains_key(k) by {
            if m@.contains_key(k) {
                assert(ks.to_set().contains(k));
            }
        }
    }
    out
}

/// Growing a prefix by one element adds exactly that element; for a
/// sequence without duplicates the new element was not in the prefix.
pub proof fn lemma_take_step<A>(s: Seq<A>, i: int)
    requires
        0 <= i < s.len(),
    ensures
        forall|x: A| #[trigger]
            s.take(i + 1).contains(x) <==> (s.take(i).contains(x) || x == s[i]),
        s.no_duplicates() ==> !s.take(i).contains(s[i]),
{
    assert forall|x: A| #[trigger]
        s.take(i + 1).contains(x) <==> (s.take(i).contains(x) || x == s[i]) by {
        if s.take(i + 1).contains(x) {
            let j = choose|j: int| 0 <= j < i + 1 && #[trigger] s.take(i + 1)[j] == x;
            if j < i {
                assert(s.take(i)[j] == x);
            }
        }
        if s.take(i).contains(x) {
            let j = choose|j: int| 0 <= j < i && #[trigger] s.take(i)[j] == x;
            assert(s.take(i + 1)[j] == x);
        }
        if x == s[i] {
            assert(s.take(i + 1)[i] == x);
        }
    }
    if s.no_duplicates() && s.take(i).contains(s[i]) {
        let j = choose|j: int| 0 <= j < i && #[trigger] s.take(i)[j] == s[i];
        assert(s[j] == s[i]);
    }
}

} // verus!
