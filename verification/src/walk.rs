//! Walking collections element by element.

use std::collections::HashSet;
use std::hash::Hash;
use vstd::prelude::*;
use vstd::std_specs::hash::obeys_key_model;
use vstd::std_specs::iter::IteratorSpec;

verus! {

/// The keys of a hash set, each once, in the order in which the set hands
/// them out.
pub(crate) fn stored_keys<K: Copy + Eq + Hash>(set: &HashSet<K>) -> (keys: Vec<K>)
    requires
        obeys_key_model::<K>(),
    ensures
        keys@.no_duplicates(),
        keys@.to_set() == set@,
{
    let mut keys: Vec<K> = Vec::new();
    let ghost walked = set.iter().remaining();
    for key in walk: set.iter()
        invariant
            walk.seq() == walked,
            keys@.len() == walk.index(),
            forall|i: int| 0 <= i < keys@.len() ==> keys@[i] == *walked[i],
    {
        keys.push(*key);
    }
    proof {
        assert(keys@ == walked.unref());
    }
    keys
}

/// A hash set holds finitely many keys.
pub(crate) proof fn lemma_hash_set_finite<K>(set: HashSet<K>)
    ensures
        set@.finite(),
{
    let walked = vstd::std_specs::hash::spec_hash_keys_iter(&set).remaining();
    vstd::std_specs::hash::axiom_spec_hash_keys_iter(&set);
    vstd::seq_lib::seq_to_set_is_finite(walked.unref());
}

/// The elements among the first `i + 1` of a sequence are those among the
/// first `i` and the one at position `i`.
pub(crate) proof fn lemma_take_one_more<A>(s: Seq<A>, i: int)
    requires
        0 <= i < s.len(),
    ensures
        s.take(i + 1).to_set() == s.take(i).to_set().insert(s[i]),
{
    let shorter = s.take(i);
    let longer = s.take(i + 1);
    assert forall|a: A| #[trigger] longer.to_set().contains(a) <==> shorter.to_set().contains(a)
        || a == s[i] by {
        if shorter.to_set().contains(a) {
            let j = choose|j: int| 0 <= j < i && shorter[j] == a;
            assert(longer[j] == a);
        }
        if a == s[i] {
            assert(longer[i] == a);
        }
        if longer.to_set().contains(a) {
            let j = choose|j: int| 0 <= j < i + 1 && longer[j] == a;
            assert(j < i ==> shorter[j] == a);
        }
    }
}

} // verus!
