//! The prerequisite relation as a mathematical object: a map from each lesson
//! to the list of lessons it requires, with paths, rankings and what follows
//! from them.

use crate::lesson::{without, Id};
use vstd::prelude::*;

verus! {

/// The prerequisite relation: each lesson with the lessons it requires.
pub type Edges = Map<Id, Seq<Id>>;

/// Every prerequisite is itself a lesson of the relation.
pub open spec fn closed(edges: Edges) -> bool {
    forall|from: Id, i: int|
        edges.contains_key(from) && 0 <= i < edges[from].len() ==> edges.contains_key(
            #[trigger] edges[from][i],
        )
}

/// `rank` numbers the lessons below `bound` so that each prerequisite has a
/// smaller number than the lesson that requires it.
pub open spec fn ranked(edges: Edges, rank: spec_fn(Id) -> nat, bound: nat) -> bool {
    &&& forall|id: Id| edges.contains_key(id) ==> #[trigger] rank(id) < bound
    &&& forall|from: Id, i: int|
        edges.contains_key(from) && 0 <= i < edges[from].len() ==> rank(#[trigger] edges[from][i])
            < rank(from)
}

/// The relation has no cycle: its lessons can be ranked.
pub open spec fn acyclic(edges: Edges) -> bool {
    exists|rank: spec_fn(Id) -> nat, bound: nat| ranked(edges, rank, bound)
}

/// One ranking of the relation, where it has any.
pub open spec fn ranking(edges: Edges) -> (spec_fn(Id) -> nat, nat) {
    choose|pair: (spec_fn(Id) -> nat, nat)| ranked(edges, pair.0, pair.1)
}

/// The rank of `id` in `ranking(edges)`: it bounds how far prerequisites can
/// be followed down from `id`.
pub open spec fn depth(edges: Edges, id: Id) -> nat {
    (ranking(edges).0)(id)
}

/// What separates the rank of `id` from the bound of `ranking(edges)`: it
/// bounds how far dependents can be followed up from `id`.
pub open spec fn height(edges: Edges, id: Id) -> nat {
    (ranking(edges).1 - (ranking(edges).0)(id)) as nat
}

/// In a relation without cycle, `ranking` is a ranking.
pub proof fn lemma_ranking(edges: Edges)
    requires
        acyclic(edges),
    ensures
        ranked(edges, ranking(edges).0, ranking(edges).1),
{
    let (rank, bound) = choose|rank: spec_fn(Id) -> nat, bound: nat| ranked(edges, rank, bound);
    assert(ranked(edges, (rank, bound).0, (rank, bound).1));
}

/// Along a prerequisite edge the depth falls and the height grows.
pub proof fn lemma_edge_measures(edges: Edges, from: Id, i: int)
    requires
        acyclic(edges),
        closed(edges),
        edges.contains_key(from),
        0 <= i < edges[from].len(),
    ensures
        depth(edges, edges[from][i]) < depth(edges, from),
        height(edges, from) < height(edges, edges[from][i]),
        edges[from][i] != from,
{
    lemma_ranking(edges);
    let to = edges[from][i];
    assert(edges.contains_key(to));
    assert((ranking(edges).0)(to) < ranking(edges).1);
}

/// `path` follows prerequisite edges from its first lesson to its last.
pub open spec fn is_path(edges: Edges, path: Seq<Id>) -> bool {
    &&& path.len() > 0
    &&& forall|i: int|
        0 <= i < path.len() - 1 ==> edges.contains_key(#[trigger] path[i]) && edges[path[i]].contains(
            path[i + 1],
        )
}

/// `from` is `to`, or requires it, directly or through other lessons.
pub open spec fn depends(edges: Edges, from: Id, to: Id) -> bool {
    exists|path: Seq<Id>| is_path(edges, path) && path.first() == from && path.last() == to
}

/// Every lesson depends on itself.
pub proof fn law_depends_reflexive(edges: Edges, id: Id)
    ensures
        depends(edges, id, id),
{
    let path = seq![id];
    assert(is_path(edges, path) && path.first() == id && path.last() == id);
}

/// Two paths that meet make one path.
pub proof fn lemma_path_join(edges: Edges, first: Seq<Id>, second: Seq<Id>)
    requires
        is_path(edges, first),
        is_path(edges, second),
        first.last() == second.first(),
    ensures
        is_path(edges, first.drop_last() + second),
        (first.drop_last() + second).first() == first.first(),
        (first.drop_last() + second).last() == second.last(),
{
    let joined = first.drop_last() + second;
    let cut = first.len() - 1;
    assert forall|i: int| 0 <= i < joined.len() - 1 implies edges.contains_key(#[trigger] joined[i])
        && edges[joined[i]].contains(joined[i + 1]) by {
        if i < cut {
            assert(joined[i] == first[i]);
            assert(joined[i + 1] == first[i + 1]);
        } else {
            assert(joined[i] == second[i - cut]);
            assert(joined[i + 1] == second[i - cut + 1]);
        }
    }
}

/// Dependence is transitive.
pub proof fn law_depends_transitive(edges: Edges, a: Id, b: Id, c: Id)
    requires
        depends(edges, a, b),
        depends(edges, b, c),
    ensures
        depends(edges, a, c),
{
    let first = choose|path: Seq<Id>| is_path(edges, path) && path.first() == a && path.last() == b;
    let second = choose|path: Seq<Id>|
        is_path(edges, path) && path.first() == b && path.last() == c;
    lemma_path_join(edges, first, second);
    let joined = first.drop_last() + second;
    assert(is_path(edges, joined) && joined.first() == a && joined.last() == c);
}

/// A lesson depends on each of its direct prerequisites.
pub proof fn lemma_depends_direct(edges: Edges, from: Id, i: int)
    requires
        edges.contains_key(from),
        0 <= i < edges[from].len(),
    ensures
        depends(edges, from, edges[from][i]),
{
    let path = seq![from, edges[from][i]];
    assert(edges[from].contains(path[1]));
    assert(is_path(edges, path) && path.first() == from && path.last() == edges[from][i]);
}

/// A lesson depends on what its direct prerequisites depend on.
pub proof fn lemma_depends_through(edges: Edges, from: Id, i: int, to: Id)
    requires
        edges.contains_key(from),
        0 <= i < edges[from].len(),
        depends(edges, edges[from][i], to),
    ensures
        depends(edges, from, to),
{
    lemma_depends_direct(edges, from, i);
    law_depends_transitive(edges, from, edges[from][i], to);
}

/// What a lesson depends on, other than itself, one of its direct
/// prerequisites depends on.
pub proof fn lemma_depends_unfold(edges: Edges, from: Id, to: Id) -> (i: int)
    requires
        depends(edges, from, to),
        from != to,
    ensures
        edges.contains_key(from),
        0 <= i < edges[from].len(),
        depends(edges, edges[from][i], to),
{
    let path = choose|path: Seq<Id>|
        is_path(edges, path) && path.first() == from && path.last() == to;
    assert(path.len() >= 2);
    assert(edges.contains_key(path[0]) && edges[path[0]].contains(path[0int + 1]));
    let i = choose|i: int| 0 <= i < edges[from].len() && edges[from][i] == path[1];
    let rest = path.subrange(1, path.len() as int);
    assert forall|j: int| 0 <= j < rest.len() - 1 implies edges.contains_key(#[trigger] rest[j])
        && edges[rest[j]].contains(rest[j + 1]) by {
        assert(rest[j] == path[j + 1]);
        assert(rest[j + 1] == path[j + 1 + 1]);
    }
    assert(is_path(edges, rest) && rest.first() == edges[from][i] && rest.last() == to);
    i
}

/// Along a path the rank falls with each step.
pub proof fn lemma_path_rank(edges: Edges, rank: spec_fn(Id) -> nat, bound: nat, path: Seq<Id>)
    requires
        ranked(edges, rank, bound),
        is_path(edges, path),
    ensures
        rank(path.last()) + path.len() - 1 <= rank(path.first()),
    decreases path.len(),
{
    if path.len() > 1 {
        let rest = path.subrange(1, path.len() as int);
        assert forall|j: int| 0 <= j < rest.len() - 1 implies edges.contains_key(
            #[trigger] rest[j],
        ) && edges[rest[j]].contains(rest[j + 1]) by {
            assert(rest[j] == path[j + 1]);
            assert(rest[j + 1] == path[j + 1 + 1]);
        }
        lemma_path_rank(edges, rank, bound, rest);
        assert(edges.contains_key(path[0]) && edges[path[0]].contains(path[0int + 1]));
        let i = choose|i: int| 0 <= i < edges[path[0]].len() && edges[path[0]][i] == path[1];
        assert(rank(edges[path[0]][i]) < rank(path[0]));
        assert(rest.first() == path[1]);
        assert(rest.last() == path.last());
    }
}

/// A relation in which a path of more than one lesson ends where it began
/// has a cycle.
pub proof fn lemma_cycle_refutes(edges: Edges, path: Seq<Id>)
    requires
        is_path(edges, path),
        path.len() > 1,
        path.first() == path.last(),
    ensures
        !acyclic(edges),
{
    if acyclic(edges) {
        lemma_ranking(edges);
        lemma_path_rank(edges, ranking(edges).0, ranking(edges).1, path);
    }
}

/// In a relation without cycle, two different lessons do not depend on each
/// other.
pub proof fn lemma_depends_antisymmetric(edges: Edges, a: Id, b: Id)
    requires
        acyclic(edges),
        depends(edges, a, b),
        depends(edges, b, a),
    ensures
        a == b,
{
    if a != b {
        let first = choose|path: Seq<Id>|
            is_path(edges, path) && path.first() == a && path.last() == b;
        let second = choose|path: Seq<Id>|
            is_path(edges, path) && path.first() == b && path.last() == a;
        lemma_path_join(edges, first, second);
        lemma_cycle_refutes(edges, first.drop_last() + second);
    }
}

/// In a closed relation without cycle, no direct prerequisite of a lesson
/// depends on the lesson.
pub proof fn lemma_prerequisite_independent(edges: Edges, from: Id, i: int)
    requires
        closed(edges),
        acyclic(edges),
        edges.contains_key(from),
        0 <= i < edges[from].len(),
    ensures
        !depends(edges, edges[from][i], from),
{
    if depends(edges, edges[from][i], from) {
        lemma_depends_direct(edges, from, i);
        lemma_depends_antisymmetric(edges, from, edges[from][i]);
        lemma_edge_measures(edges, from, i);
    }
}

/// A new lesson whose prerequisites are lessons of a closed relation without
/// cycle leaves it closed and without cycle.
pub proof fn lemma_insert_fresh(edges: Edges, id: Id, prerequisites: Seq<Id>)
    requires
        closed(edges),
        acyclic(edges),
        !edges.contains_key(id),
        forall|i: int| 0 <= i < prerequisites.len() ==> edges.contains_key(prerequisites[i]),
    ensures
        closed(edges.insert(id, prerequisites)),
        acyclic(edges.insert(id, prerequisites)),
{
    lemma_ranking(edges);
    let (old_rank, old_bound) = ranking(edges);
    let after = edges.insert(id, prerequisites);
    let rank = |other: Id|
        if other == id {
            old_bound
        } else {
            old_rank(other)
        };
    let bound = old_bound + 1;
    assert forall|from: Id, i: int|
        after.contains_key(from) && 0 <= i < after[from].len() implies after.contains_key(
        #[trigger] after[from][i],
    ) && rank(after[from][i]) < rank(from) by {
        if from == id {
            assert(edges.contains_key(prerequisites[i]));
        } else {
            assert(edges.contains_key(edges[from][i]));
            assert(old_rank(edges[from][i]) < old_rank(from));
        }
    }
    assert forall|other: Id| after.contains_key(other) implies #[trigger] rank(other) < bound by {
        if other != id {
            assert(old_rank(other) < old_bound);
        }
    }
    assert(ranked(after, rank, bound));
}

/// Giving a lesson new prerequisites, none of which depends on it, leaves a
/// closed relation without cycle closed and without cycle.
pub proof fn lemma_replace_prerequisites(edges: Edges, id: Id, prerequisites: Seq<Id>)
    requires
        closed(edges),
        acyclic(edges),
        edges.contains_key(id),
        forall|i: int|
            0 <= i < prerequisites.len() ==> edges.contains_key(prerequisites[i]) && !depends(
                edges,
                prerequisites[i],
                id,
            ),
    ensures
        closed(edges.insert(id, prerequisites)),
        acyclic(edges.insert(id, prerequisites)),
{
    lemma_ranking(edges);
    let (old_rank, old_bound) = ranking(edges);
    let after = edges.insert(id, prerequisites);
    let rank = |other: Id|
        if depends(edges, other, id) {
            old_rank(other) + old_bound
        } else {
            old_rank(other)
        };
    let bound = old_bound + old_bound;
    law_depends_reflexive(edges, id);
    assert forall|from: Id, i: int|
        after.contains_key(from) && 0 <= i < after[from].len() implies after.contains_key(
        #[trigger] after[from][i],
    ) && rank(after[from][i]) < rank(from) by {
        if from == id {
            let to = prerequisites[i];
            assert(edges.contains_key(to) && !depends(edges, to, id));
            assert(old_rank(to) < old_bound);
        } else {
            let to = edges[from][i];
            assert(edges.contains_key(to));
            assert(old_rank(to) < old_rank(from));
            if depends(edges, to, id) {
                lemma_depends_through(edges, from, i, id);
            }
        }
    }
    assert forall|other: Id| after.contains_key(other) implies #[trigger] rank(other) < bound by {
        assert(old_rank(other) < old_bound);
    }
    assert(ranked(after, rank, bound));
}

/// What depends on a lesson once that lesson has new prerequisites depended
/// on it before: the prerequisites of a lesson play no part in what depends
/// on it.
pub proof fn lemma_depends_kept(edges: Edges, id: Id, prerequisites: Seq<Id>, from: Id)
    requires
        depends(edges.insert(id, prerequisites), from, id),
    ensures
        depends(edges, from, id),
{
    let after = edges.insert(id, prerequisites);
    let path = choose|path: Seq<Id>|
        is_path(after, path) && path.first() == from && path.last() == id;
    lemma_path_to_first_visit(edges, id, prerequisites, path);
}

proof fn lemma_path_to_first_visit(edges: Edges, id: Id, prerequisites: Seq<Id>, path: Seq<Id>)
    requires
        is_path(edges.insert(id, prerequisites), path),
        path.last() == id,
    ensures
        depends(edges, path.first(), id),
    decreases path.len(),
{
    let after = edges.insert(id, prerequisites);
    if path.first() == id {
        law_depends_reflexive(edges, id);
    } else {
        assert(path.len() > 1);
        let rest = path.subrange(1, path.len() as int);
        assert forall|j: int| 0 <= j < rest.len() - 1 implies after.contains_key(
            #[trigger] rest[j],
        ) && after[rest[j]].contains(rest[j + 1]) by {
            assert(rest[j] == path[j + 1]);
            assert(rest[j + 1] == path[j + 1 + 1]);
        }
        assert(rest.last() == path.last());
        lemma_path_to_first_visit(edges, id, prerequisites, rest);
        assert(after.contains_key(path[0]) && after[path[0]].contains(path[0int + 1]));
        assert(after[path[0]] == edges[path[0]]);
        let i = choose|i: int| 0 <= i < edges[path[0]].len() && edges[path[0]][i] == path[1];
        assert(rest.first() == path[1]);
        lemma_depends_through(edges, path[0], i, id);
    }
}

/// The relation without the lesson `id`: the lesson leaves, and so does every
/// mention of it among the prerequisites of the others.
pub open spec fn erase(edges: Edges, id: Id) -> Edges {
    Map::new(
        |other: Id| edges.contains_key(other) && other != id,
        |other: Id| without(edges[other], id),
    )
}

/// What depends on a lesson once another is erased depended on it before.
pub proof fn lemma_erase_depends(edges: Edges, id: Id, from: Id, to: Id)
    requires
        depends(erase(edges, id), from, to),
    ensures
        depends(edges, from, to),
{
    let after = erase(edges, id);
    let path = choose|path: Seq<Id>|
        is_path(after, path) && path.first() == from && path.last() == to;
    assert forall|i: int| 0 <= i < path.len() - 1 implies edges.contains_key(#[trigger] path[i])
        && edges[path[i]].contains(path[i + 1]) by {
        assert(after.contains_key(path[i]) && after[path[i]].contains(path[i + 1]));
        crate::lesson::lemma_without_contains(edges[path[i]], id);
    }
    assert(is_path(edges, path));
}

/// Erasing a lesson leaves a closed relation without cycle closed and
/// without cycle.
pub proof fn lemma_erase(edges: Edges, id: Id)
    requires
        closed(edges),
        acyclic(edges),
    ensures
        closed(erase(edges, id)),
        acyclic(erase(edges, id)),
{
    lemma_ranking(edges);
    let (rank, bound) = ranking(edges);
    let after = erase(edges, id);
    assert forall|from: Id, i: int|
        after.contains_key(from) && 0 <= i < after[from].len() implies after.contains_key(
        #[trigger] after[from][i],
    ) && rank(after[from][i]) < rank(from) by {
        let to = after[from][i];
        crate::lesson::lemma_without_contains(edges[from], id);
        assert(without(edges[from], id).contains(to));
        assert(edges[from].contains(to));
        let j = choose|j: int| 0 <= j < edges[from].len() && edges[from][j] == to;
        assert(edges.contains_key(edges[from][j]));
        assert(rank(edges[from][j]) < rank(from));
    }
    assert forall|other: Id| after.contains_key(other) implies #[trigger] rank(other) < bound by {
        assert(edges.contains_key(other));
    }
    assert(ranked(after, rank, bound));
}

} // verus!
