//! The readiness rule: what the status of a node is, given its own practice
//! status and the readiness of its prerequisites.

use crate::lesson::{lemma_without_absent, stripped, Id, NodeView, Readiness};
use crate::relation::{acyclic, closed, ranked, ranking, lemma_ranking, Edges};
use crate::schedule::{Date, LessonStatus};
use vstd::prelude::*;

verus! {

/// The nodes of a graph, by identifier.
pub type Nodes = Map<Id, NodeView>;

/// The prerequisite relation that the nodes hold.
pub open spec fn edges_of(nodes: Nodes) -> Edges {
    Map::new(|id: Id| nodes.contains_key(id), |id: Id| nodes[id].lesson.direct_prerequisites)
}

/// Whether `id` is a node whose readiness is `Ready`.
pub open spec fn is_ready(nodes: Nodes, id: Id) -> bool {
    nodes.contains_key(id) && nodes[id].status is Ready
}

/// The test that keeps what is not `Ready` in `nodes`.
pub open spec fn not_ready_in(nodes: Nodes) -> spec_fn(Id) -> bool {
    |id: Id| !is_ready(nodes, id)
}

/// Those of `prerequisites` that are not `Ready`, in order.
pub open spec fn blocking(prerequisites: Seq<Id>, nodes: Nodes) -> Seq<Id> {
    prerequisites.filter(not_ready_in(nodes))
}

/// The readiness of a lesson with the practice status `status` and the direct
/// prerequisites `prerequisites`, on the day `today`.
///
/// A lesson that is good enough is ready, whatever its prerequisites. Any
/// other lesson is blocked by the direct prerequisites that are not ready;
/// with none of them, it is pending if it is due, and ready if not.
pub open spec fn readiness(
    status: LessonStatus,
    prerequisites: Seq<Id>,
    nodes: Nodes,
    today: Date,
) -> Readiness {
    if status is GoodEnough {
        Readiness::Ready
    } else if blocking(prerequisites, nodes).len() > 0 {
        Readiness::MissingPrereq(blocking(prerequisites, nodes))
    } else if status.is_due(today) {
        Readiness::Pending
    } else {
        Readiness::Ready
    }
}

/// The nodes whose readiness is `Ready`.
pub open spec fn ready_ids(nodes: Nodes) -> Set<Id> {
    Set::new(|id: Id| is_ready(nodes, id))
}

/// Whether `id` is a node whose readiness is `Pending`.
pub open spec fn is_pending(nodes: Nodes, id: Id) -> bool {
    nodes.contains_key(id) && nodes[id].status is Pending
}

/// `listed` holds the nodes that `ids` names, in the same order.
pub open spec fn lists(listed: Seq<NodeView>, ids: Seq<Id>, nodes: Nodes) -> bool {
    &&& listed.len() == ids.len()
    &&& forall|i: int|
        0 <= i < ids.len() ==> nodes.contains_key(#[trigger] ids[i]) && listed[i] == nodes[ids[i]]
}

/// The readiness that the rule gives the node `id`.
pub open spec fn expected(nodes: Nodes, today: Date, id: Id) -> Readiness {
    readiness(nodes[id].lesson.status, nodes[id].lesson.direct_prerequisites, nodes, today)
}

/// The node `id` has the readiness that the rule gives it.
pub open spec fn settled(nodes: Nodes, today: Date, id: Id) -> bool {
    nodes.contains_key(id) && nodes[id].status == expected(nodes, today, id)
}

/// Every node has the readiness that the rule gives it.
pub open spec fn resolved(nodes: Nodes, today: Date) -> bool {
    forall|id: Id| nodes.contains_key(id) ==> settled(nodes, today, id)
}

/// The blocking prerequisites of a list, from those of its front.
pub proof fn lemma_blocking_push(prerequisites: Seq<Id>, last: Id, nodes: Nodes)
    ensures
        blocking(prerequisites.push(last), nodes) == if is_ready(nodes, last) {
            blocking(prerequisites, nodes)
        } else {
            blocking(prerequisites, nodes).push(last)
        },
{
    reveal(Seq::filter);
    assert(prerequisites.push(last).drop_last() =~= prerequisites);
}

/// No prerequisite blocks exactly when every prerequisite is ready.
pub proof fn lemma_blocking_none(prerequisites: Seq<Id>, nodes: Nodes)
    ensures
        blocking(prerequisites, nodes).len() == 0 <==> forall|i: int|
            0 <= i < prerequisites.len() ==> is_ready(nodes, #[trigger] prerequisites[i]),
{
    let keep = not_ready_in(nodes);
    let kept = blocking(prerequisites, nodes);
    if kept.len() == 0 {
        assert forall|i: int| 0 <= i < prerequisites.len() implies is_ready(
            nodes,
            #[trigger] prerequisites[i],
        ) by {
            if !is_ready(nodes, prerequisites[i]) {
                prerequisites.lemma_filter_contains(keep, i);
            }
        }
    } else {
        prerequisites.lemma_filter_pred(keep, 0);
        prerequisites.lemma_filter_contains_rev(keep, kept[0]);
    }
}

/// The blocking prerequisites of a list are those of the list that are not
/// ready, and no others.
pub proof fn law_blocking_members(prerequisites: Seq<Id>, nodes: Nodes)
    ensures
        forall|id: Id|
            #[trigger] blocking(prerequisites, nodes).contains(id) <==> prerequisites.contains(id)
                && !is_ready(nodes, id),
{
    let keep = not_ready_in(nodes);
    let kept = blocking(prerequisites, nodes);
    assert forall|id: Id| #[trigger] kept.contains(id) implies prerequisites.contains(id)
        && !is_ready(nodes, id) by {
        let j = choose|j: int| 0 <= j < kept.len() && kept[j] == id;
        prerequisites.lemma_filter_pred(keep, j);
        prerequisites.lemma_filter_contains_rev(keep, id);
    }
    assert forall|id: Id| prerequisites.contains(id) && !is_ready(nodes, id) implies #[trigger] kept.contains(
        id,
    ) by {
        let i = choose|i: int| 0 <= i < prerequisites.len() && prerequisites[i] == id;
        prerequisites.lemma_filter_contains(keep, i);
    }
}

/// Two graphs in which the prerequisites of a list are ready alike block it
/// alike.
pub proof fn lemma_blocking_agrees(prerequisites: Seq<Id>, left: Nodes, right: Nodes)
    requires
        forall|i: int|
            0 <= i < prerequisites.len() ==> is_ready(left, #[trigger] prerequisites[i])
                == is_ready(right, prerequisites[i]),
    ensures
        blocking(prerequisites, left) == blocking(prerequisites, right),
    decreases prerequisites.len(),
{
    reveal(Seq::filter);
    if prerequisites.len() > 0 {
        let front = prerequisites.drop_last();
        assert forall|i: int| 0 <= i < front.len() implies is_ready(left, #[trigger] front[i])
            == is_ready(right, front[i]) by {
            assert(front[i] == prerequisites[i]);
        }
        lemma_blocking_agrees(front, left, right);
        assert(prerequisites =~= front.push(prerequisites.last()));
        lemma_blocking_push(front, prerequisites.last(), left);
        lemma_blocking_push(front, prerequisites.last(), right);
        assert(is_ready(left, prerequisites[prerequisites.len() - 1]) == is_ready(
            right,
            prerequisites[prerequisites.len() - 1],
        ));
    }
}

/// Two graphs in which a node has the same lesson, and its direct
/// prerequisites are ready alike, give it the same expected readiness.
pub proof fn lemma_expected_agrees(left: Nodes, right: Nodes, today: Date, id: Id)
    requires
        left[id].lesson == right[id].lesson,
        forall|i: int|
            0 <= i < left[id].lesson.direct_prerequisites.len() ==> is_ready(
                left,
                #[trigger] left[id].lesson.direct_prerequisites[i],
            ) == is_ready(right, left[id].lesson.direct_prerequisites[i]),
    ensures
        expected(left, today, id) == expected(right, today, id),
{
    lemma_blocking_agrees(left[id].lesson.direct_prerequisites, left, right);
}

/// Giving the node `id` the readiness that the rule gives it settles it, and
/// unsettles no node but those that have `id` as a direct prerequisite.
pub proof fn lemma_restatus(before: Nodes, after: Nodes, today: Date, id: Id)
    requires
        before.contains_key(id),
        !before[id].lesson.direct_prerequisites.contains(id),
        after == before.insert(
            id,
            NodeView { lesson: before[id].lesson, status: expected(before, today, id) },
        ),
    ensures
        settled(after, today, id),
        forall|other: Id|
            other != id && #[trigger] settled(before, today, other)
                && !before[other].lesson.direct_prerequisites.contains(id) ==> settled(
                after,
                today,
                other,
            ),
{
    assert forall|other: Id|
        before.contains_key(other) && !before[other].lesson.direct_prerequisites.contains(
            id,
        ) implies #[trigger] expected(after, today, other) == expected(before, today, other) by {
        let prerequisites = before[other].lesson.direct_prerequisites;
        assert(after[other].lesson == before[other].lesson);
        assert forall|i: int| 0 <= i < prerequisites.len() implies is_ready(
            after,
            #[trigger] prerequisites[i],
        ) == is_ready(before, prerequisites[i]) by {
            assert(prerequisites.contains(prerequisites[i]));
        }
        lemma_expected_agrees(after, before, today, other);
    }
    assert(expected(after, today, id) == expected(before, today, id));
}

/// The nodes without the lesson `id`: the node leaves, and so does every
/// mention of it among the prerequisites of the others. The readiness of the
/// nodes that stay is left as it is.
pub open spec fn erased(nodes: Nodes, id: Id) -> Nodes {
    Map::new(
        |other: Id| nodes.contains_key(other) && other != id,
        |other: Id| NodeView { lesson: stripped(nodes[other].lesson, id), status: nodes[other].status },
    )
}

/// Erasing a lesson leaves settled every node that did not have it as a
/// direct prerequisite.
pub proof fn lemma_erased_settled(nodes: Nodes, today: Date, id: Id, other: Id)
    requires
        closed(edges_of(nodes)),
        settled(nodes, today, other),
        other != id,
        !nodes[other].lesson.direct_prerequisites.contains(id),
    ensures
        settled(erased(nodes, id), today, other),
{
    let after = erased(nodes, id);
    let prerequisites = nodes[other].lesson.direct_prerequisites;
    lemma_without_absent(prerequisites, id);
    assert(after[other].lesson == nodes[other].lesson);
    assert forall|i: int| 0 <= i < prerequisites.len() implies is_ready(
        after,
        #[trigger] prerequisites[i],
    ) == is_ready(nodes, prerequisites[i]) by {
        assert(prerequisites.contains(prerequisites[i]));
        assert(edges_of(nodes).contains_key(edges_of(nodes)[other][i]));
    }
    lemma_expected_agrees(after, nodes, today, other);
}

/// In a resolved graph, a node is ready exactly when its lesson is good
/// enough, or is not due and has every direct prerequisite ready.
pub proof fn law_resolved_ready(nodes: Nodes, today: Date, id: Id)
    requires
        resolved(nodes, today),
        nodes.contains_key(id),
    ensures
        nodes[id].status is Ready <==> nodes[id].lesson.status is GoodEnough || (
        !nodes[id].lesson.status.is_due(today) && forall|i: int|
            0 <= i < nodes[id].lesson.direct_prerequisites.len() ==> is_ready(
                nodes,
                #[trigger] nodes[id].lesson.direct_prerequisites[i],
            )),
        nodes[id].status is Pending <==> !(nodes[id].lesson.status is GoodEnough)
            && nodes[id].lesson.status.is_due(today) && forall|i: int|
            0 <= i < nodes[id].lesson.direct_prerequisites.len() ==> is_ready(
                nodes,
                #[trigger] nodes[id].lesson.direct_prerequisites[i],
            ),
        nodes[id].status matches Readiness::MissingPrereq(missing) ==> missing == blocking(
            nodes[id].lesson.direct_prerequisites,
            nodes,
        ) && missing.len() > 0,
{
    assert(settled(nodes, today, id));
    lemma_blocking_none(nodes[id].lesson.direct_prerequisites, nodes);
}

/// Every node is ready exactly when its lesson is good enough, or is not due
/// on `today` and has every direct prerequisite ready.
pub open spec fn ready_by_rule(nodes: Nodes, today: Date) -> bool {
    forall|id: Id|
        nodes.contains_key(id) ==> (#[trigger] is_ready(nodes, id)
            <==> nodes[id].lesson.status is GoodEnough || (!nodes[id].lesson.status.is_due(today)
            && forall|i: int|
            0 <= i < nodes[id].lesson.direct_prerequisites.len() ==> is_ready(
                nodes,
                #[trigger] nodes[id].lesson.direct_prerequisites[i],
            )))
}

/// In a resolved graph, every node is ready by the rule.
pub proof fn law_resolved_ready_by_rule(nodes: Nodes, today: Date)
    requires
        resolved(nodes, today),
    ensures
        ready_by_rule(nodes, today),
{
    assert forall|id: Id| nodes.contains_key(id) implies (#[trigger] is_ready(nodes, id)
        <==> nodes[id].lesson.status is GoodEnough || (!nodes[id].lesson.status.is_due(today)
        && forall|i: int|
        0 <= i < nodes[id].lesson.direct_prerequisites.len() ==> is_ready(
            nodes,
            #[trigger] nodes[id].lesson.direct_prerequisites[i],
        ))) by {
        law_resolved_ready(nodes, today, id);
    }
}

/// The same lessons, whatever the readiness of each.
pub open spec fn same_lessons(left: Nodes, right: Nodes) -> bool {
    &&& left.dom() == right.dom()
    &&& forall|id: Id| left.contains_key(id) ==> #[trigger] left[id].lesson == right[id].lesson
}

proof fn lemma_unique_at(
    left: Nodes,
    right: Nodes,
    today: Date,
    rank: spec_fn(Id) -> nat,
    bound: nat,
    id: Id,
)
    requires
        same_lessons(left, right),
        resolved(left, today),
        resolved(right, today),
        closed(edges_of(left)),
        ranked(edges_of(left), rank, bound),
        left.contains_key(id),
    ensures
        left[id].status == right[id].status,
    decreases rank(id),
{
    let prerequisites = left[id].lesson.direct_prerequisites;
    let edges = edges_of(left);
    assert(edges.contains_key(id));
    assert(edges[id] == prerequisites);
    assert(right.dom().contains(id));
    assert(left[id].lesson == right[id].lesson);
    assert forall|i: int| 0 <= i < prerequisites.len() implies is_ready(
        left,
        #[trigger] prerequisites[i],
    ) == is_ready(right, prerequisites[i]) by {
        let to = edges[id][i];
        assert(edges.contains_key(to));
        assert(rank(to) < rank(id));
        assert(right.dom().contains(to));
        lemma_unique_at(left, right, today, rank, bound, to);
    }
    lemma_blocking_agrees(prerequisites, left, right);
    assert(settled(left, today, id));
    assert(settled(right, today, id));
}

/// The lessons and the day decide the readiness of every node: two resolved
/// graphs with the same lessons, closed and without cycle, give each node the
/// same readiness.
pub proof fn law_resolution_unique(left: Nodes, right: Nodes, today: Date)
    requires
        same_lessons(left, right),
        resolved(left, today),
        resolved(right, today),
        closed(edges_of(left)),
        acyclic(edges_of(left)),
    ensures
        forall|id: Id| left.contains_key(id) ==> #[trigger] left[id].status == right[id].status,
        left =~= right,
{
    lemma_ranking(edges_of(left));
    let (rank, bound) = ranking(edges_of(left));
    assert forall|id: Id| left.contains_key(id) implies #[trigger] left[id].status
        == right[id].status by {
        lemma_unique_at(left, right, today, rank, bound, id);
    }
    assert forall|id: Id| left.contains_key(id) implies #[trigger] left[id] == right[id] by {
        assert(left[id].lesson == right[id].lesson);
        assert(left[id].status == right[id].status);
    }
}

} // verus!
