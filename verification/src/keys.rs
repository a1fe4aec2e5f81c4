//! The keys of a hash map, as a list.

use crate::lesson::Id;
use std::collections::HashMap;
use vstd::prelude::*;
use vstd::std_specs::hash::spec_keys_iter;
use vstd::std_specs::iter::IteratorSpec;

verus! {

broadcast use vstd::std_specs::hash::group_hash_axioms;

/// The keys of `map`, each once, in the order in which the map hands them
/// out.
pub fn keys_of<V>(map: &HashMap<Id, V>) -> (keys: Vec<Id>)
    ensures
        keys@.no_duplicates(),
        keys@.to_set() == map@.dom(),
        keys@.len() == map@.dom().len(),
{
    let mut keys: Vec<Id> = Vec::new();
    let ghost all = spec_keys_iter(map).remaining().unref();
    for key in iter: map.keys()
        invariant
            iter.seq().unref() == all,
            keys@ == all.subrange(0, iter.index() as int),
    {
        keys.push(*key);
        assert(all.subrange(0, iter.index() + 1) =~= all.subrange(0, iter.index() as int).push(
            *key,
        ));
    }
    assert(keys@ =~= all);
    keys
}

/// A list that holds each of its elements once, and holds the elements of a
/// set, holds `id` exactly when the set does.
pub proof fn lemma_listed(keys: Seq<Id>, set: Set<Id>, id: Id)
    requires
        keys.to_set() == set,
    ensures
        keys.contains(id) <==> set.contains(id),
{
    assert(keys.to_set().contains(id) <==> keys.contains(id));
}

} // verus!
