//! The index of dependents: for each lesson, the list of the lessons that
//! have it as a direct prerequisite.

use crate::lesson::{
    ids_without, lemma_without_absent, lemma_without_contains, lemma_without_push, without, Id,
};
use crate::relation::{closed, erase, Edges};
use std::collections::HashMap;
use vstd::prelude::*;

verus! {

broadcast use vstd::std_specs::hash::group_hash_axioms;

/// How many times `id` occurs in `ids`.
pub open spec fn occurrences(ids: Seq<Id>, id: Id) -> nat
    decreases ids.len(),
{
    if ids.len() == 0 {
        0
    } else if ids.last() == id {
        occurrences(ids.drop_last(), id) + 1
    } else {
        occurrences(ids.drop_last(), id)
    }
}

/// The list that holds `id` `count` times.
pub open spec fn copies(id: Id, count: nat) -> Seq<Id> {
    Seq::new(count, |i: int| id)
}

/// A list holds `id` exactly when `id` occurs in it at least once.
pub proof fn lemma_occurrences(ids: Seq<Id>, id: Id)
    ensures
        occurrences(ids, id) > 0 <==> ids.contains(id),
    decreases ids.len(),
{
    if ids.len() > 0 {
        let front = ids.drop_last();
        lemma_occurrences(front, id);
        if ids.last() == id {
            assert(ids[ids.len() - 1] == id);
        } else {
            if front.contains(id) {
                let k = choose|k: int| 0 <= k < front.len() && front[k] == id;
                assert(ids[k] == id);
            }
            if ids.contains(id) {
                let k = choose|k: int| 0 <= k < ids.len() && ids[k] == id;
                assert(front[k] == id);
            }
        }
    }
}

/// The occurrences of `id` in a list are what the multiset of the list
/// counts of it.
pub proof fn law_occurrences_count(ids: Seq<Id>, id: Id)
    ensures
        occurrences(ids, id) == ids.to_multiset().count(id),
    decreases ids.len(),
{
    if ids.len() == 0 {
        ids.to_multiset_ensures();
        if ids.to_multiset().count(id) > 0 {
            assert(ids.contains(id));
        }
    } else {
        let front = ids.drop_last();
        law_occurrences_count(front, id);
        front.to_multiset_ensures();
        assert(ids =~= front.push(ids.last()));
    }
}

/// The occurrences in two lists put end to end are those in each.
pub proof fn lemma_occurrences_joined(front: Seq<Id>, back: Seq<Id>, id: Id)
    ensures
        occurrences(front + back, id) == occurrences(front, id) + occurrences(back, id),
    decreases back.len(),
{
    if back.len() == 0 {
        assert(front + back =~= front);
    } else {
        assert((front + back).drop_last() =~= front + back.drop_last());
        assert((front + back).last() == back.last());
        lemma_occurrences_joined(front, back.drop_last(), id);
    }
}

/// The list of `count` copies of `copied` holds `copied` `count` times, and
/// nothing else.
pub proof fn lemma_occurrences_copies(copied: Id, count: nat, id: Id)
    ensures
        occurrences(copies(copied, count), id) == if id == copied {
            count
        } else {
            0
        },
    decreases count,
{
    if count > 0 {
        assert(copies(copied, count).drop_last() =~= copies(copied, (count - 1) as nat));
        lemma_occurrences_copies(copied, (count - 1) as nat, id);
    }
}

/// A list without `struck` holds no `struck`, and everything else as often
/// as before.
pub proof fn lemma_occurrences_without(ids: Seq<Id>, struck: Id, id: Id)
    ensures
        occurrences(without(ids, struck), id) == if id == struck {
            0
        } else {
            occurrences(ids, id)
        },
    decreases ids.len(),
{
    reveal(Seq::filter);
    if ids.len() > 0 {
        let front = ids.drop_last();
        lemma_occurrences_without(front, struck, id);
        assert(ids =~= front.push(ids.last()));
        lemma_without_push(front, ids.last(), struck);
        if ids.last() != struck {
            assert(without(front, struck).push(ids.last()).drop_last() =~= without(front, struck));
        }
    } else {
        assert(without(ids, struck) =~= ids);
    }
}

/// The index counts the prerequisite relation `edges`: a lesson is listed
/// under `parent` as many times as `parent` occurs among its direct
/// prerequisites, and nothing else is listed.
pub open spec fn counted(children: Edges, edges: Edges) -> bool {
    forall|parent: Id, child: Id|
        children.contains_key(parent) ==> #[trigger] occurrences(children[parent], child) == (
        if edges.contains_key(child) {
            occurrences(edges[child], parent)
        } else {
            0
        })
}

/// The index in which `child` is listed under each of `parents`, once for
/// each time the parent occurs, after what was listed before.
pub open spec fn linked(children: Edges, parents: Seq<Id>, child: Id) -> Edges {
    Map::new(
        |parent: Id| children.contains_key(parent),
        |parent: Id| children[parent] + copies(child, occurrences(parents, parent)),
    )
}

/// The index in which `child` is struck from the list of each of `parents`.
pub open spec fn unlinked(children: Edges, parents: Seq<Id>, child: Id) -> Edges {
    Map::new(
        |parent: Id| children.contains_key(parent),
        |parent: Id|
            if parents.contains(parent) {
                without(children[parent], child)
            } else {
                children[parent]
            },
    )
}

/// The lists that an index of dependents holds, as mathematical values.
pub open spec fn index_view(children: Map<Id, Vec<Id>>) -> Edges {
    Map::new(|id: Id| children.contains_key(id), |id: Id| children[id]@)
}

/// What a list of `linked` holds: what it held, and the child where its
/// lesson is one of the parents.
pub proof fn lemma_linked_contains(children: Edges, parents: Seq<Id>, child: Id, parent: Id)
    requires
        children.contains_key(parent),
    ensures
        forall|other: Id|
            #[trigger] linked(children, parents, child)[parent].contains(other)
                <==> children[parent].contains(other) || (other == child && parents.contains(
                parent,
            )),
{
    let added = copies(child, occurrences(parents, parent));
    let long = children[parent] + added;
    lemma_occurrences(parents, parent);
    assert forall|other: Id| #[trigger] long.contains(other) <==> children[parent].contains(other)
        || (other == child && parents.contains(parent)) by {
        if long.contains(other) {
            let k = choose|k: int| 0 <= k < long.len() && long[k] == other;
            if k < children[parent].len() {
                assert(children[parent][k] == other);
            } else {
                assert(added[k - children[parent].len()] == other);
            }
        }
        if children[parent].contains(other) {
            let k = choose|k: int| 0 <= k < children[parent].len() && children[parent][k] == other;
            assert(long[k] == other);
        }
        if other == child && parents.contains(parent) {
            assert(long[children[parent].len() as int] == added[0]);
        }
    }
}

/// What a list of `unlinked` holds: what it held, but for the child where
/// its lesson is one of the parents.
pub proof fn lemma_unlinked_contains(children: Edges, parents: Seq<Id>, child: Id, parent: Id)
    requires
        children.contains_key(parent),
    ensures
        forall|other: Id|
            #[trigger] unlinked(children, parents, child)[parent].contains(other)
                <==> children[parent].contains(other) && !(other == child && parents.contains(
                parent,
            )),
{
    lemma_without_contains(children[parent], child);
}

/// How often a list of `linked` holds a lesson: as often as before, and the
/// child once more for each time its lesson occurs among the parents.
pub proof fn lemma_linked_occurrences(
    children: Edges,
    parents: Seq<Id>,
    child: Id,
    parent: Id,
    other: Id,
)
    requires
        children.contains_key(parent),
    ensures
        occurrences(linked(children, parents, child)[parent], other) == occurrences(
            children[parent],
            other,
        ) + if other == child {
            occurrences(parents, parent)
        } else {
            0
        },
{
    let added = copies(child, occurrences(parents, parent));
    lemma_occurrences_joined(children[parent], added, other);
    lemma_occurrences_copies(child, occurrences(parents, parent), other);
}

/// How often a list of `unlinked` holds a lesson: as often as before, but
/// for the child where its lesson is one of the parents.
pub proof fn lemma_unlinked_occurrences(
    children: Edges,
    parents: Seq<Id>,
    child: Id,
    parent: Id,
    other: Id,
)
    requires
        children.contains_key(parent),
    ensures
        occurrences(unlinked(children, parents, child)[parent], other) == if other == child
            && parents.contains(parent) {
            0
        } else {
            occurrences(children[parent], other)
        },
{
    lemma_occurrences_without(children[parent], child, other);
}

/// An index that counts a relation counts it still once a new lesson is
/// linked under its prerequisites and given an empty list.
pub proof fn lemma_counted_insert(children: Edges, edges: Edges, id: Id, prerequisites: Seq<Id>)
    requires
        counted(children, edges),
        children.dom() == edges.dom(),
        closed(edges),
        !edges.contains_key(id),
        forall|i: int| 0 <= i < prerequisites.len() ==> edges.contains_key(#[trigger] prerequisites[i]),
    ensures
        counted(
            linked(children, prerequisites, id).insert(id, Seq::empty()),
            edges.insert(id, prerequisites),
        ),
{
    let listed = linked(children, prerequisites, id).insert(id, Seq::empty());
    let grown = edges.insert(id, prerequisites);
    assert forall|parent: Id, child: Id| listed.contains_key(parent) implies #[trigger] occurrences(
        listed[parent],
        child,
    ) == (if grown.contains_key(child) {
        occurrences(grown[child], parent)
    } else {
        0
    }) by {
        if parent == id {
            if grown.contains_key(child) {
                lemma_occurrences(grown[child], id);
                if grown[child].contains(id) {
                    let i = choose|i: int| 0 <= i < grown[child].len() && grown[child][i] == id;
                    if child == id {
                        assert(edges.contains_key(prerequisites[i]));
                    } else {
                        assert(edges.contains_key(edges[child][i]));
                    }
                }
            }
        } else {
            assert(children.dom().contains(parent));
            lemma_linked_occurrences(children, prerequisites, id, parent, child);
        }
    }
}

/// An index that counts a relation counts it still once a lesson is struck
/// from the lists of its former prerequisites and linked under the new ones.
pub proof fn lemma_counted_replace(children: Edges, edges: Edges, id: Id, prerequisites: Seq<Id>)
    requires
        counted(children, edges),
        children.dom() == edges.dom(),
        edges.contains_key(id),
    ensures
        counted(
            linked(unlinked(children, edges[id], id), prerequisites, id),
            edges.insert(id, prerequisites),
        ),
{
    let struck = unlinked(children, edges[id], id);
    let listed = linked(struck, prerequisites, id);
    let changed = edges.insert(id, prerequisites);
    assert forall|parent: Id, child: Id| listed.contains_key(parent) implies #[trigger] occurrences(
        listed[parent],
        child,
    ) == (if changed.contains_key(child) {
        occurrences(changed[child], parent)
    } else {
        0
    }) by {
        assert(children.dom().contains(parent));
        lemma_linked_occurrences(struck, prerequisites, id, parent, child);
        lemma_unlinked_occurrences(children, edges[id], id, parent, child);
        lemma_occurrences(edges[id], parent);
    }
}

/// An index that counts a relation counts it still once a lesson is erased:
/// struck from the lists of its prerequisites, and its own list removed.
pub proof fn lemma_counted_erase(children: Edges, edges: Edges, id: Id)
    requires
        counted(children, edges),
        children.dom() == edges.dom(),
        edges.contains_key(id),
    ensures
        counted(unlinked(children, edges[id], id).remove(id), erase(edges, id)),
{
    let listed = unlinked(children, edges[id], id).remove(id);
    let left = erase(edges, id);
    assert forall|parent: Id, child: Id| listed.contains_key(parent) implies #[trigger] occurrences(
        listed[parent],
        child,
    ) == (if left.contains_key(child) {
        occurrences(left[child], parent)
    } else {
        0
    }) by {
        assert(children.dom().contains(parent));
        lemma_unlinked_occurrences(children, edges[id], id, parent, child);
        lemma_occurrences(edges[id], parent);
        if edges.contains_key(child) {
            lemma_occurrences_without(edges[child], id, parent);
        }
    }
}

/// Lists `child` under each of `parents`, once for each time the parent
/// occurs.
pub fn link(children: &mut HashMap<Id, Vec<Id>>, parents: &Vec<Id>, child: Id)
    requires
        forall|i: int| 0 <= i < parents.len() ==> old(children)@.contains_key(#[trigger] parents[i]),
    ensures
        index_view(final(children)@) == linked(index_view(old(children)@), parents@, child),
        final(children)@.dom() == old(children)@.dom(),
        forall|parent: Id, other: Id|
            final(children)@.contains_key(parent) ==> (#[trigger] final(children)@[parent]@.contains(
                other,
            ) <==> old(children)@[parent]@.contains(other) || (other == child && parents@.contains(
                parent,
            ))),
{
    let ghost start = index_view(children@);
    let mut i: usize = 0;
    assert(index_view(children@) =~= linked(start, parents@.subrange(0, 0), child)) by {
        assert forall|parent: Id| start.contains_key(parent) implies #[trigger] start[parent]
            == start[parent] + copies(child, occurrences(parents@.subrange(0, 0), parent)) by {
            assert(start[parent] + copies(child, 0) =~= start[parent]);
        }
    }
    while i < parents.len()
        invariant
            i <= parents.len(),
            children@.dom() == old(children)@.dom(),
            start == index_view(old(children)@),
            forall|j: int| 0 <= j < parents.len() ==> children@.contains_key(#[trigger] parents[j]),
            index_view(children@) == linked(start, parents@.subrange(0, i as int), child),
        decreases parents.len() - i,
    {
        let parent: Id = parents[i];
        let ghost before = index_view(children@);
        let mut list: Vec<Id> = children.remove(&parent).unwrap();
        list.push(child);
        children.insert(parent, list);
        proof {
            let done = parents@.subrange(0, i as int);
            let next = parents@.subrange(0, i + 1);
            assert(next.drop_last() =~= done);
            assert(next.last() == parent);
            assert(children@.dom() =~= old(children)@.dom());
            assert forall|p: Id| start.contains_key(p) implies #[trigger] index_view(children@)[p]
                == start[p] + copies(child, occurrences(next, p)) by {
                assert(before[p] == start[p] + copies(child, occurrences(done, p)));
                if p == parent {
                    assert(index_view(children@)[p] == before[p].push(child));
                    assert(before[p].push(child) =~= start[p] + copies(
                        child,
                        occurrences(done, p) + 1,
                    ));
                } else {
                    assert(index_view(children@)[p] == before[p]);
                }
            }
            assert(index_view(children@) =~= linked(start, next, child));
        }
        i += 1;
    }
    proof {
        assert(parents@.subrange(0, parents.len() as int) =~= parents@);
        assert forall|parent: Id, other: Id| children@.contains_key(parent) implies (
        #[trigger] children@[parent]@.contains(other) <==> old(children)@[parent]@.contains(other)
            || (other == child && parents@.contains(parent))) by {
            lemma_linked_contains(start, parents@, child, parent);
            assert(children@[parent]@ == index_view(children@)[parent]);
            assert(old(children)@[parent]@ == start[parent]);
        }
    }
}

/// Strikes `child` from the list of each of `parents`.
pub fn unlink(children: &mut HashMap<Id, Vec<Id>>, parents: &Vec<Id>, child: Id)
    requires
        forall|i: int| 0 <= i < parents.len() ==> old(children)@.contains_key(#[trigger] parents[i]),
    ensures
        index_view(final(children)@) == unlinked(index_view(old(children)@), parents@, child),
        final(children)@.dom() == old(children)@.dom(),
        forall|parent: Id, other: Id|
            final(children)@.contains_key(parent) ==> (#[trigger] final(children)@[parent]@.contains(
                other,
            ) <==> old(children)@[parent]@.contains(other) && !(other == child && parents@.contains(
                parent,
            ))),
{
    let ghost start = index_view(children@);
    let mut i: usize = 0;
    assert(index_view(children@) =~= unlinked(start, parents@.subrange(0, 0), child));
    while i < parents.len()
        invariant
            i <= parents.len(),
            children@.dom() == old(children)@.dom(),
            start == index_view(old(children)@),
            forall|j: int| 0 <= j < parents.len() ==> children@.contains_key(#[trigger] parents[j]),
            index_view(children@) == unlinked(start, parents@.subrange(0, i as int), child),
        decreases parents.len() - i,
    {
        let parent: Id = parents[i];
        let ghost before = index_view(children@);
        let list: Vec<Id> = children.remove(&parent).unwrap();
        let kept: Vec<Id> = ids_without(&list, child);
        children.insert(parent, kept);
        proof {
            let done = parents@.subrange(0, i as int);
            let next = parents@.subrange(0, i + 1);
            crate::lesson::lemma_prefix_contains(parents@, i as int);
            assert(children@.dom() =~= old(children)@.dom());
            assert forall|p: Id| start.contains_key(p) implies #[trigger] index_view(children@)[p]
                == (if next.contains(p) {
                without(start[p], child)
            } else {
                start[p]
            }) by {
                if p == parent {
                    assert(index_view(children@)[p] == without(before[p], child));
                    if done.contains(p) {
                        lemma_without_contains(start[p], child);
                        lemma_without_absent(without(start[p], child), child);
                    }
                } else {
                    assert(index_view(children@)[p] == before[p]);
                }
            }
            assert(index_view(children@) =~= unlinked(start, next, child));
        }
        i += 1;
    }
    proof {
        assert(parents@.subrange(0, parents.len() as int) =~= parents@);
        assert forall|parent: Id, other: Id| children@.contains_key(parent) implies (
        #[trigger] children@[parent]@.contains(other) <==> old(children)@[parent]@.contains(other)
            && !(other == child && parents@.contains(parent))) by {
            lemma_unlinked_contains(start, parents@, child, parent);
            assert(children@[parent]@ == index_view(children@)[parent]);
            assert(old(children)@[parent]@ == start[parent]);
        }
    }
}

} // verus!
