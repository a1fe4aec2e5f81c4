//! The live graph: nodes, the index of dependents, and the operations that
//! keep both exact.

use crate::builder::{lesson_edges, next_after, GraphBuilder, GraphError};
use crate::index::{
    counted, index_view, lemma_counted_erase, lemma_counted_insert, lemma_counted_replace, link,
    linked, unlink, unlinked,
};
use crate::keys::{keys_of, lemma_listed};
use crate::lesson::{
    copy_ids, ids_without, lemma_prefix_contains, lemma_push_contains, lemma_without_absent,
    lemma_without_contains, stripped, without, GraphNode, Id, LessonInfo, LessonView, NodeStatus, NodeView,
};
use crate::pick::choose_among;
use crate::readiness::{
    blocking, edges_of, erased, expected, is_pending, is_ready, law_resolution_unique,
    lemma_blocking_agrees, lemma_blocking_push, lemma_erased_settled, lemma_expected_agrees,
    lemma_restatus, lists, readiness, ready_by_rule, ready_ids, resolved, same_lessons, settled,
    Nodes,
};
use crate::relation::{
    acyclic, closed, depends, depth, erase, height, law_depends_reflexive,
    law_depends_transitive, lemma_depends_antisymmetric, lemma_depends_direct, lemma_depends_kept,
    lemma_depends_through, lemma_depends_unfold, lemma_edge_measures, lemma_erase,
    lemma_erase_depends, lemma_insert_fresh, lemma_replace_prerequisites, Edges,
};
use crate::schedule::{Date, LessonStatus};
use crate::storage::IOBackend;
use crate::text::{contains_text, occurs_in};
use std::collections::HashMap;
use vstd::prelude::*;

verus! {

broadcast use vstd::std_specs::hash::group_hash_axioms;

/// The lessons of a graph with their readiness, kept exact under every change.
#[derive(Debug)]
pub struct Graph<T: IOBackend> {
    pub(crate) nodes: HashMap<Id, GraphNode>,
    /// For each lesson, the lessons that have it as a direct prerequisite.
    pub(crate) children: HashMap<Id, Vec<Id>>,
    /// The identifier that the next new lesson gets.
    pub(crate) next_id: Id,
    /// The day on which the readiness of the nodes is taken.
    pub(crate) today: Date,
    pub(crate) io_backend: T,
}

/// A graph as a mathematical value.
pub struct GraphView {
    pub nodes: Nodes,
    pub children: Edges,
    pub next_id: Id,
    pub today: Date,
}

impl GraphView {
    /// The prerequisite relation of the graph.
    pub open spec fn edges(self) -> Edges {
        edges_of(self.nodes)
    }

    /// The index of dependents mirrors the prerequisite lists: a lesson is
    /// listed under `parent` exactly when `parent` is one of its direct
    /// prerequisites, and as often as `parent` occurs among them.
    pub open spec fn mirrored(self) -> bool {
        &&& self.children.dom() == self.nodes.dom()
        &&& forall|parent: Id, child: Id|
            self.children.contains_key(parent) ==> (#[trigger] self.children[parent].contains(child)
                <==> self.nodes.contains_key(child)
                && self.nodes[child].lesson.direct_prerequisites.contains(parent))
        &&& counted(self.children, self.edges())
    }

    /// The graph is closed and without cycle, its index mirrors its
    /// prerequisite lists, and its identifiers lie below the next one.
    pub open spec fn shaped(self) -> bool {
        &&& self.nodes.dom().finite()
        &&& closed(self.edges())
        &&& acyclic(self.edges())
        &&& self.mirrored()
        &&& forall|id: Id| self.nodes.contains_key(id) ==> id < self.next_id
    }

    /// The graph with the new lesson `lesson` under the next identifier.
    /// The node has the readiness that the rule gives it, and it is listed
    /// under each of its prerequisites.
    pub open spec fn created(self, lesson: LessonView) -> GraphView {
        GraphView {
            nodes: self.nodes.insert(
                self.next_id,
                NodeView {
                    lesson,
                    status: readiness(
                        lesson.status,
                        lesson.direct_prerequisites,
                        self.nodes,
                        self.today,
                    ),
                },
            ),
            children: linked(self.children, lesson.direct_prerequisites, self.next_id).insert(
                self.next_id,
                Seq::empty(),
            ),
            next_id: (self.next_id + 1) as Id,
            today: self.today,
        }
    }

    /// Whether a lesson with the direct prerequisites `prerequisites` can
    /// be added to the graph: the prerequisites are lessons of the graph,
    /// and an identifier is left for the lesson.
    pub open spec fn creatable(self, prerequisites: Seq<Id>) -> bool {
        &&& self.next_id < u64::MAX
        &&& forall|i: int|
            0 <= i < prerequisites.len() ==> self.nodes.contains_key(#[trigger] prerequisites[i])
    }

    /// Whether the lesson `id` can be given the direct prerequisites
    /// `prerequisites`: `id` and the prerequisites are lessons of the graph,
    /// and none of the prerequisites depends on `id`.
    pub open spec fn editable(self, id: Id, prerequisites: Seq<Id>) -> bool {
        &&& self.nodes.contains_key(id)
        &&& forall|i: int|
            0 <= i < prerequisites.len() ==> self.nodes.contains_key(#[trigger] prerequisites[i])
                && !depends(self.edges(), prerequisites[i], id)
    }

    /// Whether `after` is the graph once `lesson` has taken the place of the
    /// lesson `id`.
    ///
    /// The other lessons are as they were. The lesson is listed under its
    /// new prerequisites and no longer under the former ones. Every node
    /// has the readiness that the rule gives it; the nodes that do not
    /// depend on `id` have the readiness that they had, and so has every
    /// node if `id` has.
    pub open spec fn edited(self, id: Id, lesson: LessonView, after: GraphView) -> bool {
        &&& after.wf()
        &&& after.next_id == self.next_id
        &&& after.today == self.today
        &&& after.nodes.dom() == self.nodes.dom()
        &&& after.children == linked(
            unlinked(self.children, self.nodes[id].lesson.direct_prerequisites, id),
            lesson.direct_prerequisites,
            id,
        )
        &&& after.nodes[id].lesson == lesson
        &&& forall|other: Id|
            other != id && self.nodes.contains_key(other) ==> #[trigger] after.nodes[other].lesson
                == self.nodes[other].lesson
        &&& forall|other: Id|
            self.nodes.contains_key(other) && !depends(self.edges(), other, id)
                ==> #[trigger] after.nodes[other].status == self.nodes[other].status
        &&& after.nodes[id].status == self.nodes[id].status ==> forall|other: Id|
            self.nodes.contains_key(other) ==> #[trigger] after.nodes[other].status
                == self.nodes[other].status
    }

    /// Whether `after` is the graph once the lesson `id` is deleted.
    ///
    /// The lesson has left the graph, the prerequisites of the other
    /// lessons and the index of dependents; the lessons that stay are as
    /// they were in all else. Every node has the readiness that the rule
    /// gives it, and the nodes that did not depend on `id` have the
    /// readiness that they had.
    pub open spec fn deleted(self, id: Id, after: GraphView) -> bool {
        &&& after.wf()
        &&& after.next_id == self.next_id
        &&& after.today == self.today
        &&& after.nodes.dom() == self.nodes.dom().remove(id)
        &&& after.children == unlinked(
            self.children,
            self.nodes[id].lesson.direct_prerequisites,
            id,
        ).remove(id)
        &&& forall|other: Id|
            after.nodes.contains_key(other) ==> #[trigger] after.nodes[other].lesson == stripped(
                self.nodes[other].lesson,
                id,
            )
        &&& forall|other: Id|
            after.nodes.contains_key(other) && !depends(self.edges(), other, id)
                ==> #[trigger] after.nodes[other].status == self.nodes[other].status
        &&& forall|other: Id|
            after.nodes.contains_key(other) ==> !(
            #[trigger] after.nodes[other]).lesson.direct_prerequisites.contains(id)
        &&& forall|parent: Id|
            after.children.contains_key(parent) ==> parent != id && !(
            #[trigger] after.children[parent]).contains(id)
    }

    /// The graph is shaped, and every node has the readiness that the rule
    /// gives it on the day of the graph.
    pub open spec fn wf(self) -> bool {
        &&& self.shaped()
        &&& resolved(self.nodes, self.today)
    }
}

/// The nodes that a map of nodes holds, as mathematical values.
pub open spec fn nodes_view(nodes: Map<Id, GraphNode>) -> Nodes {
    Map::new(|id: Id| nodes.contains_key(id), |id: Id| nodes[id]@)
}

/// The nodes of a list, as mathematical values.
pub open spec fn node_views(nodes: Seq<&GraphNode>) -> Seq<NodeView> {
    nodes.map_values(|node: &GraphNode| node@)
}

impl<T: IOBackend> View for Graph<T> {
    type V = GraphView;

    open(crate) spec fn view(&self) -> GraphView {
        GraphView {
            nodes: nodes_view(self.nodes@),
            children: index_view(self.children@),
            next_id: self.next_id,
            today: self.today,
        }
    }
}

impl<T: IOBackend> Graph<T> {
    /// Whether the graph is well formed: see `GraphView::wf`.
    pub open spec fn wf(&self) -> bool {
        self@.wf()
    }

    /// The readiness of a lesson with the practice status `lesson_status`
    /// and the direct prerequisites `prereqs`, from the readiness that the
    /// prerequisites have now.
    pub fn compute_node_status(&self, prereqs: &Vec<Id>, lesson_status: &LessonStatus) -> (status:
        NodeStatus)
        requires
            forall|i: int| 0 <= i < prereqs.len() ==> self@.nodes.contains_key(#[trigger] prereqs[i]),
        ensures
            status@ == readiness(*lesson_status, prereqs@, self@.nodes, self@.today),
    {
        if let LessonStatus::GoodEnough = lesson_status {
            return NodeStatus::Ready;
        }
        let mut missing_prereqs: Vec<Id> = Vec::new();
        let mut i: usize = 0;
        proof {
            reveal(Seq::filter);
        }
        while i < prereqs.len()
            invariant
                i <= prereqs.len(),
                forall|j: int|
                    0 <= j < prereqs.len() ==> self@.nodes.contains_key(#[trigger] prereqs[j]),
                missing_prereqs@ == blocking(prereqs@.subrange(0, i as int), self@.nodes),
            decreases prereqs.len() - i,
        {
            let prereq_id: Id = prereqs[i];
            proof {
                lemma_blocking_push(prereqs@.subrange(0, i as int), prereq_id, self@.nodes);
                assert(prereqs@.subrange(0, i + 1) =~= prereqs@.subrange(0, i as int).push(
                    prereq_id,
                ));
                assert(self@.nodes.contains_key(prereqs[i as int]));
            }
            if !self.nodes.get(&prereq_id).unwrap().status.is_ready() {
                missing_prereqs.push(prereq_id);
            }
            i += 1;
        }
        assert(prereqs@.subrange(0, prereqs.len() as int) =~= prereqs@);
        if missing_prereqs.is_empty() {
            if lesson_status.needs_work(self.today) {
                NodeStatus::Pending
            } else {
                NodeStatus::Ready
            }
        } else {
            NodeStatus::MissingPrereq(missing_prereqs)
        }
    }

    /// Whether `id1` is `id2` or has it as a prerequisite, direct or not.
    #[verifier::loop_isolation(false)]
    pub fn depends_on(&self, id1: Id, id2: Id) -> (found: bool)
        requires
            self@.shaped(),
            id1 == id2 || self@.nodes.contains_key(id1),
        ensures
            found == depends(self@.edges(), id1, id2),
        decreases depth(self@.edges(), id1),
    {
        let ghost edges = self@.edges();
        if id1 == id2 {
            proof {
                law_depends_reflexive(edges, id1);
            }
            return true;
        }
        let prereqs = &self.nodes.get(&id1).unwrap().lesson.direct_prerequisites;
        assert(edges[id1] == prereqs@);
        let mut i: usize = 0;
        while i < prereqs.len()
            invariant
                i <= prereqs.len(),
                forall|j: int| 0 <= j < i ==> !depends(edges, #[trigger] prereqs[j], id2),
            decreases prereqs.len() - i,
        {
            let prereq_id: Id = prereqs[i];
            proof {
                lemma_edge_measures(edges, id1, i as int);
                assert(edges.contains_key(edges[id1][i as int]));
            }
            if self.depends_on(prereq_id, id2) {
                proof {
                    lemma_depends_through(edges, id1, i as int, id2);
                }
                return true;
            }
            i += 1;
        }
        proof {
            if depends(edges, id1, id2) {
                let k = lemma_depends_unfold(edges, id1, id2);
                assert(!depends(edges, prereqs[k], id2));
            }
        }
        false
    }

    /// Adds the lesson `lesson_info` to the graph under the next identifier,
    /// and returns that identifier. The lesson is first written to the
    /// store; if the store refuses it, the graph is left as it was.
    pub fn create_new_node(&mut self, lesson_info: LessonInfo) -> (created: Result<Id, T::Error>)
        requires
            old(self).wf(),
            old(self)@.creatable(lesson_info@.direct_prerequisites),
        ensures
            final(self).wf(),
            match created {
                Ok(id) => id == old(self)@.next_id && final(self)@ == old(self)@.created(
                    lesson_info@,
                ),
                Err(_) => final(self)@ == old(self)@,
            },
    {
        let written = self.io_backend.add_new_lesson(self.next_id, &lesson_info);
        self.record_created(written, lesson_info)
    }

    /// Takes the answer `written` of the store to the writing of the new
    /// lesson `lesson_info`. Where the store took the lesson, the lesson is
    /// added to the graph under the next identifier, which is returned;
    /// where it refused, the graph is left as it was and the refusal is
    /// returned.
    pub fn record_created(&mut self, written: Result<(), T::Error>, lesson_info: LessonInfo) -> (created:
        Result<Id, T::Error>)
        requires
            old(self).wf(),
            old(self)@.creatable(lesson_info@.direct_prerequisites),
        ensures
            final(self).wf(),
            match written {
                Ok(_) => created == Ok::<Id, T::Error>(old(self)@.next_id) && final(self)@ == old(
                    self,
                )@.created(lesson_info@),
                Err(error) => created == Err::<Id, T::Error>(error) && final(self)@ == old(self)@,
            },
    {
        let ghost start = self@;
        let ghost prerequisites = lesson_info.direct_prerequisites@;
        let id: Id = self.next_id;
        match written {
            Ok(()) => {},
            Err(error) => {
                return Err(error);
            },
        }
        self.next_id = id + 1;
        assert(index_view(self.children@) == start.children);
        link(&mut self.children, &lesson_info.direct_prerequisites, id);
        let node_status = self.compute_node_status(
            &lesson_info.direct_prerequisites,
            &lesson_info.status,
        );
        let ghost listed = self.children@;
        self.children.insert(id, Vec::new());
        self.nodes.insert(id, GraphNode { lesson: lesson_info, status: node_status });
        proof {
            let after = self@;
            let node = NodeView { lesson: lesson_info@, status: node_status@ };
            assert(index_view(listed) == linked(start.children, prerequisites, id));
            assert(after.children =~= linked(start.children, prerequisites, id).insert(
                id,
                Seq::empty(),
            ));
            assert(after.nodes =~= start.nodes.insert(id, node));
            assert(!start.nodes.contains_key(id));
            assert(after.edges() =~= start.edges().insert(id, prerequisites));
            lemma_insert_fresh(start.edges(), id, prerequisites);
            lemma_counted_insert(start.children, start.edges(), id, prerequisites);
            assert(after.children.dom() =~= after.nodes.dom());
            assert forall|parent: Id, child: Id| after.children.contains_key(parent) implies (
            #[trigger] after.children[parent].contains(child) <==> after.nodes.contains_key(child)
                && after.nodes[child].lesson.direct_prerequisites.contains(parent)) by {
                if parent == id {
                    assert(after.children[parent] =~= Seq::<Id>::empty());
                    if after.nodes.contains_key(child)
                        && after.nodes[child].lesson.direct_prerequisites.contains(id) {
                        let list = after.nodes[child].lesson.direct_prerequisites;
                        let i = choose|i: int| 0 <= i < list.len() && list[i] == id;
                        if child == id {
                            assert(start.nodes.contains_key(prerequisites[i]));
                        } else {
                            assert(start.edges().contains_key(start.edges()[child][i]));
                        }
                    }
                } else {
                    assert(after.children[parent] == listed[parent]@);
                    assert(start.children.contains_key(parent));
                    assert(start.children[parent] == old(self).children@[parent]@);
                    assert(listed[parent]@.contains(child) <==> start.children[parent].contains(
                        child,
                    ) || (child == id && prerequisites.contains(parent)));
                    assert(start.children[parent].contains(child) <==> start.nodes.contains_key(
                        child,
                    ) && start.nodes[child].lesson.direct_prerequisites.contains(parent));
                }
            }
            assert forall|other: Id| after.nodes.contains_key(other) implies settled(
                after.nodes,
                after.today,
                other,
            ) by {
                let list = after.nodes[other].lesson.direct_prerequisites;
                assert forall|i: int| 0 <= i < list.len() implies is_ready(
                    after.nodes,
                    #[trigger] list[i],
                ) == is_ready(start.nodes, list[i]) by {
                    if other == id {
                        assert(start.nodes.contains_key(prerequisites[i]));
                    } else {
                        assert(start.edges().contains_key(start.edges()[other][i]));
                    }
                }
                if other == id {
                    lemma_blocking_agrees(list, after.nodes, start.nodes);
                } else {
                    lemma_expected_agrees(after.nodes, start.nodes, after.today, other);
                    assert(settled(start.nodes, start.today, other));
                }
            }
        }
        Ok(id)
    }

    /// Replaces the lesson `id` by `lesson_info`, and brings the readiness
    /// of the node and of its dependents up to date. The lesson is first
    /// written to the store, so that the graph and the store hold the same
    /// lesson afterwards; if the store refuses it, the graph is left as it
    /// was.
    pub fn edit_node(&mut self, id: Id, lesson_info: LessonInfo) -> (edited: Result<(), T::Error>)
        requires
            old(self).wf(),
            old(self)@.editable(id, lesson_info@.direct_prerequisites),
        ensures
            final(self).wf(),
            match edited {
                Ok(()) => old(self)@.edited(id, lesson_info@, final(self)@),
                Err(_) => final(self)@ == old(self)@,
            },
    {
        let written = self.io_backend.update_existing_lesson(id, &lesson_info);
        self.record_edited(written, id, lesson_info)
    }

    /// Takes the answer `written` of the store to the writing of
    /// `lesson_info` over the lesson `id`. Where the store took the lesson,
    /// the graph takes it too, as `edit_node` says; where it refused, the
    /// graph is left as it was and the refusal is returned.
    pub fn record_edited(&mut self, written: Result<(), T::Error>, id: Id, lesson_info: LessonInfo) -> (edited:
        Result<(), T::Error>)
        requires
            old(self).wf(),
            old(self)@.editable(id, lesson_info@.direct_prerequisites),
        ensures
            final(self).wf(),
            written is Ok <==> edited is Ok,
            written matches Err(error) ==> edited == Err::<(), T::Error>(error),
            match edited {
                Ok(()) => old(self)@.edited(id, lesson_info@, final(self)@),
                Err(_) => final(self)@ == old(self)@,
            },
    {
        let ghost start = self@;
        let ghost today = self@.today;
        let ghost prerequisites = lesson_info.direct_prerequisites@;
        match written {
            Ok(()) => {},
            Err(error) => {
                return Err(error);
            },
        }
        let mut node = self.nodes.remove(&id).unwrap();
        let ghost former = node.lesson.direct_prerequisites@;
        proof {
            assert(start.edges()[id] == former);
            assert forall|i: int| 0 <= i < former.len() implies self.children@.contains_key(
                #[trigger] former[i],
            ) by {
                assert(start.edges().contains_key(start.edges()[id][i]));
                assert(start.children.contains_key(former[i]));
            }
        }
        unlink(&mut self.children, &node.lesson.direct_prerequisites, id);
        let ghost struck = self.children@;
        proof {
            assert forall|i: int| 0 <= i < prerequisites.len() implies self.children@.contains_key(
                #[trigger] prerequisites[i],
            ) by {
                assert(start.children.contains_key(prerequisites[i]));
            }
        }
        link(&mut self.children, &lesson_info.direct_prerequisites, id);
        node.lesson = lesson_info;
        self.nodes.insert(id, node);
        let ghost rewired = self@;
        proof {
            assert(rewired.nodes =~= start.nodes.insert(
                id,
                NodeView { lesson: lesson_info@, status: start.nodes[id].status },
            ));
            assert(rewired.nodes.dom() =~= start.nodes.dom());
            assert(rewired.edges() =~= start.edges().insert(id, prerequisites));
            lemma_replace_prerequisites(start.edges(), id, prerequisites);
            lemma_counted_replace(start.children, start.edges(), id, prerequisites);
            assert(rewired.children == linked(
                unlinked(start.children, former, id),
                prerequisites,
                id,
            ));
            assert(rewired.children.dom() =~= rewired.nodes.dom());
            assert forall|parent: Id, child: Id| rewired.children.contains_key(parent) implies (
            #[trigger] rewired.children[parent].contains(child) <==> rewired.nodes.contains_key(
                child,
            ) && rewired.nodes[child].lesson.direct_prerequisites.contains(parent)) by {
                assert(start.children.contains_key(parent));
                assert(start.children[parent] == old(self).children@[parent]@);
                assert(struck[parent]@.contains(child) <==> start.children[parent].contains(child)
                    && !(child == id && former.contains(parent)));
                assert(rewired.children[parent].contains(child) <==> struck[parent]@.contains(
                    child,
                ) || (child == id && prerequisites.contains(parent)));
                assert(start.children[parent].contains(child) <==> start.nodes.contains_key(child)
                    && start.nodes[child].lesson.direct_prerequisites.contains(parent));
            }
            assert(rewired.shaped());
            assert forall|other: Id|
                other != id && rewired.nodes.contains_key(other) implies settled(
                rewired.nodes,
                today,
                other,
            ) by {
                let list = rewired.nodes[other].lesson.direct_prerequisites;
                assert forall|i: int| 0 <= i < list.len() implies is_ready(
                    rewired.nodes,
                    #[trigger] list[i],
                ) == is_ready(start.nodes, list[i]) by {}
                lemma_expected_agrees(rewired.nodes, start.nodes, today, other);
                assert(settled(start.nodes, today, other));
            }
        }
        let _ = self.update_node_status(id);
        proof {
            let after = self@;
            assert(after.nodes.dom() =~= start.nodes.dom());
            assert forall|other: Id| after.nodes.contains_key(other) implies settled(
                after.nodes,
                today,
                other,
            ) by {
                if other != id {
                    assert(settled(rewired.nodes, today, other));
                }
            }
            assert forall|other: Id|
                start.nodes.contains_key(other) && !depends(start.edges(), other, id) implies
                #[trigger] after.nodes[other].status
                == start.nodes[other].status by {
                law_depends_reflexive(start.edges(), id);
                if depends(rewired.edges(), other, id) {
                    lemma_depends_kept(start.edges(), id, prerequisites, other);
                }
            }
            if after.nodes[id].status == start.nodes[id].status {
                assert(settled(rewired.nodes, today, id));
                assert(after == rewired);
            }
        }
        Ok(())
    }

    /// Removes the lesson `id` from the graph and from the prerequisites of
    /// the lessons that required it, and brings the readiness of those
    /// lessons and of their dependents up to date. Each lesson that required
    /// `id` is first written to the store without it, and `id` is removed
    /// from the store; if the store refuses one of these, the graph is left
    /// as it was.
    pub fn delete_node(&mut self, id: Id) -> (deleted: Result<(), T::Error>)
        requires
            old(self).wf(),
            old(self)@.nodes.contains_key(id),
        ensures
            final(self).wf(),
            match deleted {
                Ok(()) => old(self)@.deleted(id, final(self)@),
                Err(_) => final(self)@ == old(self)@,
            },
    {
        let written = self.write_deletion(id);
        self.record_deleted(written, id)
    }

    /// The lesson `child_id` as it is without `id` among its direct
    /// prerequisites.
    pub fn without_prerequisite(&self, child_id: Id, id: Id) -> (lesson: LessonInfo)
        requires
            self@.nodes.contains_key(child_id),
        ensures
            lesson@ == stripped(self@.nodes[child_id].lesson, id),
    {
        let child = self.nodes.get(&child_id).unwrap();
        let mut lesson = child.lesson.clone();
        lesson.direct_prerequisites = ids_without(&lesson.direct_prerequisites, id);
        lesson
    }

    /// What the deletion of the lesson `id` writes to the store: each lesson
    /// that requires `id`, in the order of the index of dependents, as it
    /// is without `id` among its direct prerequisites.
    #[verifier::loop_isolation(false)]
    pub fn deletion_writes(&self, id: Id) -> (writes: Vec<(Id, LessonInfo)>)
        requires
            self.wf(),
            self@.nodes.contains_key(id),
        ensures
            writes@.len() == self@.children[id].len(),
            forall|k: int|
                0 <= k < writes@.len() ==> (#[trigger] writes@[k]).0 == self@.children[id][k]
                    && writes@[k].1@ == stripped(self@.nodes[writes@[k].0].lesson, id),
    {
        let children = self.children.get(&id).unwrap();
        let mut writes: Vec<(Id, LessonInfo)> = Vec::new();
        let mut k: usize = 0;
        while k < children.len()
            invariant
                k <= children.len(),
                writes@.len() == k,
                forall|j: int|
                    0 <= j < k ==> (#[trigger] writes@[j]).0 == children@[j] && writes@[j].1@
                        == stripped(self@.nodes[writes@[j].0].lesson, id),
            decreases children.len() - k,
        {
            let child_id: Id = children[k];
            assert(self@.children[id].contains(children@[k as int]));
            let lesson = self.without_prerequisite(child_id, id);
            writes.push((child_id, lesson));
            k += 1;
        }
        writes
    }

    /// Writes to the store what the deletion of the lesson `id` changes:
    /// the lessons of `deletion_writes` are written one after the other,
    /// and `id` is removed. The first refusal of the store ends the writing
    /// and is returned.
    fn write_deletion(&self, id: Id) -> (written: Result<(), T::Error>)
        requires
            self.wf(),
            self@.nodes.contains_key(id),
    {
        let writes = self.deletion_writes(id);
        let mut k: usize = 0;
        while k < writes.len()
            invariant
                k <= writes.len(),
            decreases writes.len() - k,
        {
            match self.io_backend.update_existing_lesson(writes[k].0, &writes[k].1) {
                Ok(()) => {},
                Err(error) => {
                    return Err(error);
                },
            }
            k += 1;
        }
        self.io_backend.remove_lesson(id)
    }

    /// Takes the answer `written` of the store to the writing of the
    /// deletion of the lesson `id`. Where the store took it, the graph
    /// takes it too, as `delete_node` says; where it refused, the graph is
    /// left as it was and the refusal is returned.
    #[verifier::loop_isolation(false)]
    pub fn record_deleted(&mut self, written: Result<(), T::Error>, id: Id) -> (deleted: Result<
        (),
        T::Error,
    >)
        requires
            old(self).wf(),
            old(self)@.nodes.contains_key(id),
        ensures
            final(self).wf(),
            written is Ok <==> deleted is Ok,
            written matches Err(error) ==> deleted == Err::<(), T::Error>(error),
            match deleted {
                Ok(()) => old(self)@.deleted(id, final(self)@),
                Err(_) => final(self)@ == old(self)@,
            },
    {
        let ghost start = self@;
        let ghost today = self@.today;
        let ghost edges = self@.edges();
        let children = copy_ids(self.children.get(&id).unwrap());
        proof {
            assert(children@ == start.children[id]);
            assert forall|k: int| 0 <= k < children.len() implies start.nodes.contains_key(
                #[trigger] children[k],
            ) && start.nodes[children[k]].lesson.direct_prerequisites.contains(id) && children[k]
                != id by {
                assert(start.children[id].contains(children@[k]));
                let list = edges[children[k]];
                let i = choose|i: int| 0 <= i < list.len() && list[i] == id;
                lemma_edge_measures(edges, children[k], i);
            }
        }
        match written {
            Ok(()) => {},
            Err(error) => {
                return Err(error);
            },
        }
        let mut k: usize = 0;
        let node = self.nodes.remove(&id).unwrap();
        let ghost former = node.lesson.direct_prerequisites@;
        proof {
            assert(edges[id] == former);
            assert forall|i: int| 0 <= i < former.len() implies self.children@.contains_key(
                #[trigger] former[i],
            ) by {
                assert(edges.contains_key(edges[id][i]));
                assert(start.children.contains_key(former[i]));
            }
        }
        unlink(&mut self.children, &node.lesson.direct_prerequisites, id);
        let ghost struck = self.children@;
        self.children.remove(&id);
        let ghost lists = self.children@;
        k = 0;
        while k < children.len()
            invariant
                k <= children.len(),
                self.children@ == lists,
                self.next_id == start.next_id,
                self.today == today,
                self.nodes@.dom() == old(self).nodes@.dom().remove(id),
                forall|other: Id|
                    self.nodes@.contains_key(other) ==> (#[trigger] self.nodes@[other])@ == (
                    if children@.subrange(0, k as int).contains(other) {
                        NodeView {
                            lesson: stripped(start.nodes[other].lesson, id),
                            status: start.nodes[other].status,
                        }
                    } else {
                        start.nodes[other]
                    }),
            decreases children.len() - k,
        {
            let child_id: Id = children[k];
            assert(start.nodes.contains_key(children[k as int]));
            let ghost before = self.nodes@;
            let mut child = self.nodes.remove(&child_id).unwrap();
            let ghost list = child.lesson.direct_prerequisites@;
            child.lesson.direct_prerequisites = ids_without(&child.lesson.direct_prerequisites, id);
            self.nodes.insert(child_id, child);
            proof {
                assert(self.nodes@.dom() =~= before.dom());
                lemma_prefix_contains(children@, k as int);
                lemma_without_contains(start.nodes[child_id].lesson.direct_prerequisites, id);
                lemma_without_absent(
                    without(start.nodes[child_id].lesson.direct_prerequisites, id),
                    id,
                );
                assert forall|other: Id| self.nodes@.contains_key(other) implies (
                #[trigger] self.nodes@[other])@ == (if children@.subrange(0, k + 1).contains(other) {
                    NodeView {
                        lesson: stripped(start.nodes[other].lesson, id),
                        status: start.nodes[other].status,
                    }
                } else {
                    start.nodes[other]
                }) by {
                    if other == child_id {
                        assert(self.nodes@[other]@.lesson.direct_prerequisites == without(list, id));
                        assert(before[other]@.lesson.direct_prerequisites == list);
                    } else {
                        assert(self.nodes@[other] == before[other]);
                    }
                }
            }
            k += 1;
        }
        let ghost bare = self@;
        proof {
            assert(children@.subrange(0, children.len() as int) =~= children@);
            assert forall|other: Id| bare.nodes.contains_key(other) implies #[trigger] bare.nodes[other]
                == erased(start.nodes, id)[other] by {
                if !children@.contains(other) {
                    assert(!start.children[id].contains(other));
                    lemma_without_absent(start.nodes[other].lesson.direct_prerequisites, id);
                }
            }
            assert(bare.children =~= unlinked(start.children, former, id).remove(id));
            assert(bare.nodes =~= erased(start.nodes, id));
            assert(bare.edges() =~= erase(edges, id));
            lemma_erase(edges, id);
            lemma_counted_erase(start.children, edges, id);
            assert(bare.children.dom() =~= bare.nodes.dom());
            assert forall|parent: Id, child: Id| bare.children.contains_key(parent) implies (
            #[trigger] bare.children[parent].contains(child) <==> bare.nodes.contains_key(child)
                && bare.nodes[child].lesson.direct_prerequisites.contains(parent)) by {
                assert(start.children.contains_key(parent));
                assert(bare.children[parent] == struck[parent]@);
                assert(start.children[parent] == old(self).children@[parent]@);
                assert(struck[parent]@.contains(child) <==> start.children[parent].contains(child)
                    && !(child == id && former.contains(parent)));
                assert(start.children[parent].contains(child) <==> start.nodes.contains_key(child)
                    && start.nodes[child].lesson.direct_prerequisites.contains(parent));
                if start.nodes.contains_key(child) {
                    lemma_without_contains(start.nodes[child].lesson.direct_prerequisites, id);
                }
            }
            assert(bare.nodes.dom() =~= start.nodes.dom().remove(id));
            assert(bare.nodes.dom().finite());
            assert(bare.shaped());
            assert forall|other: Id|
                bare.nodes.contains_key(other) && !children@.contains(other) implies settled(
                bare.nodes,
                today,
                other,
            ) by {
                assert(!start.children[id].contains(other));
                assert(settled(start.nodes, today, other));
                lemma_erased_settled(start.nodes, today, id, other);
            }
        }
        k = 0;
        while k < children.len()
            invariant
                k <= children.len(),
                self@.shaped(),
                same_lessons(bare.nodes, self@.nodes),
                self@.children == bare.children,
                self@.next_id == start.next_id,
                self@.today == today,
                forall|other: Id|
                    settled(bare.nodes, today, other) ==> #[trigger] settled(
                        self@.nodes,
                        today,
                        other,
                    ),
                forall|j: int| 0 <= j < k ==> settled(self@.nodes, today, #[trigger] children[j]),
                forall|other: Id|
                    bare.nodes.contains_key(other) && !depends(edges, other, id)
                        ==> #[trigger] self@.nodes[other].status == start.nodes[other].status,
            decreases children.len() - k,
        {
            let child_id: Id = children[k];
            let ghost before = self@;
            proof {
                assert(start.nodes.contains_key(children[k as int]));
                assert(self@.edges() =~= bare.edges());
            }
            let _ = self.update_node_status(child_id);
            proof {
                assert forall|j: int| 0 <= j < k + 1 implies settled(
                    self@.nodes,
                    today,
                    #[trigger] children[j],
                ) by {
                    if j < k {
                        assert(settled(before.nodes, today, children[j]));
                    }
                }
                assert forall|other: Id| settled(bare.nodes, today, other) implies #[trigger] settled(
                    self@.nodes,
                    today,
                    other,
                ) by {
                    assert(settled(before.nodes, today, other));
                }
                assert forall|other: Id|
                    bare.nodes.contains_key(other) && !depends(edges, other, id) implies
                    #[trigger] self@.nodes[other].status
                    == start.nodes[other].status by {
                    assert(before.nodes.contains_key(other));
                    if depends(before.edges(), other, child_id) {
                        lemma_erase_depends(edges, id, other, child_id);
                        let list = edges[child_id];
                        let i = choose|i: int| 0 <= i < list.len() && list[i] == id;
                        lemma_depends_direct(edges, child_id, i);
                        law_depends_transitive(edges, other, child_id, id);
                    }
                }
            }
            k += 1;
        }
        proof {
            let after = self@;
            assert(after.nodes.dom() =~= start.nodes.dom().remove(id));
            assert forall|other: Id| after.nodes.contains_key(other) implies settled(
                after.nodes,
                today,
                other,
            ) by {
                if children@.contains(other) {
                    let j = choose|j: int| 0 <= j < children@.len() && children@[j] == other;
                    assert(settled(after.nodes, today, children[j]));
                } else {
                    assert(settled(bare.nodes, today, other));
                }
            }
            assert forall|other: Id| after.nodes.contains_key(other) implies #[trigger] after.nodes[other].lesson
                == stripped(start.nodes[other].lesson, id) by {
                assert(bare.nodes.contains_key(other));
                assert(bare.nodes[other].lesson == after.nodes[other].lesson);
                assert(bare.nodes[other] == erased(start.nodes, id)[other]);
            }
            assert forall|other: Id| after.nodes.contains_key(other) implies !(
            #[trigger] after.nodes[other]).lesson.direct_prerequisites.contains(id) by {
                assert(after.nodes[other].lesson == stripped(start.nodes[other].lesson, id));
                lemma_without_contains(start.nodes[other].lesson.direct_prerequisites, id);
            }
            assert forall|parent: Id| after.children.contains_key(parent) implies parent != id && !(
            #[trigger] after.children[parent]).contains(id) by {
                assert(bare.children.contains_key(parent));
                assert(bare.nodes.contains_key(parent));
                if bare.children[parent].contains(id) {
                    assert(bare.nodes.contains_key(id));
                }
            }
        }
        Ok(())
    }

    /// Recomputes the readiness of the node `id`. Where it has changed, the
    /// new readiness is stored and the nodes that have `id` as a direct
    /// prerequisite are recomputed in turn; where it has not, nothing more
    /// is done. The result lists the nodes in the order in which they were
    /// recomputed.
    #[verifier::loop_isolation(false)]
    pub fn update_node_status(&mut self, id: Id) -> (visited: Ghost<Seq<Id>>)
        requires
            old(self)@.shaped(),
            old(self)@.nodes.contains_key(id),
        ensures
            final(self)@.shaped(),
            same_lessons(old(self)@.nodes, final(self)@.nodes),
            final(self)@.children == old(self)@.children,
            final(self)@.next_id == old(self)@.next_id,
            final(self)@.today == old(self)@.today,
            settled(final(self)@.nodes, final(self)@.today, id),
            forall|other: Id|
                settled(old(self)@.nodes, old(self)@.today, other) ==> #[trigger] settled(
                    final(self)@.nodes,
                    final(self)@.today,
                    other,
                ),
            final(self)@.nodes[id].status == expected(old(self)@.nodes, old(self)@.today, id),
            forall|other: Id|
                old(self)@.nodes.contains_key(other) && !depends(old(self)@.edges(), other, id)
                    ==> #[trigger] final(self)@.nodes[other].status == old(self)@.nodes[other].status,
            visited@.len() > 0,
            visited@[0] == id,
            forall|i: int|
                0 <= i < visited@.len() ==> old(self)@.nodes.contains_key(#[trigger] visited@[i])
                    && depends(old(self)@.edges(), visited@[i], id),
            forall|other: Id|
                old(self)@.nodes.contains_key(other) && #[trigger] final(self)@.nodes[other].status
                    != old(self)@.nodes[other].status ==> visited@.contains(other),
            settled(old(self)@.nodes, old(self)@.today, id) ==> final(self)@ == old(self)@
                && visited@ == seq![id],
        decreases height(old(self)@.edges(), id),
    {
        let ghost start = self@;
        let ghost edges = self@.edges();
        let ghost today = self@.today;
        let node = self.nodes.get(&id).unwrap();
        proof {
            assert(edges[id] == node.lesson.direct_prerequisites@);
            assert forall|i: int| 0 <= i < node.lesson.direct_prerequisites.len() implies start.nodes.contains_key(
            #[trigger] node.lesson.direct_prerequisites[i]) by {
                assert(edges.contains_key(edges[id][i]));
            }
        }
        let new_node_status = self.compute_node_status(
            &node.lesson.direct_prerequisites,
            &node.lesson.status,
        );
        let ghost mut visited = seq![id];
        proof {
            law_depends_reflexive(edges, id);
            assert(visited[0] == id);
        }
        if node.status.same_as(&new_node_status) {
            assert(self@ == start);
            return Ghost(visited);
        }
        let mut node = self.nodes.remove(&id).unwrap();
        node.status = new_node_status;
        self.nodes.insert(id, node);
        let children = copy_ids(self.children.get(&id).unwrap());
        let ghost changed = self@;
        proof {
            assert(changed.nodes =~= start.nodes.insert(
                id,
                NodeView { lesson: start.nodes[id].lesson, status: expected(start.nodes, today, id) },
            ));
            assert(changed.edges() =~= edges);
            assert(changed.children == start.children);
            assert(changed.nodes.dom() =~= start.nodes.dom());
            if start.nodes[id].lesson.direct_prerequisites.contains(id) {
                let i = choose|i: int|
                    0 <= i < edges[id].len() && edges[id][i] == id;
                lemma_edge_measures(edges, id, i);
            }
            lemma_restatus(start.nodes, changed.nodes, today, id);
            assert(changed.shaped());
            assert(visited.contains(visited[0]));
        }
        let mut k: usize = 0;
        while k < children.len()
            invariant
                k <= children.len(),
                self@.shaped(),
                same_lessons(start.nodes, self@.nodes),
                self@.children == start.children,
                self@.next_id == start.next_id,
                self@.today == today,
                forall|other: Id|
                    settled(changed.nodes, today, other) ==> #[trigger] settled(
                        self@.nodes,
                        today,
                        other,
                    ),
                forall|j: int| 0 <= j < k ==> settled(self@.nodes, today, #[trigger] children[j]),
                self@.nodes[id].status == expected(start.nodes, today, id),
                forall|other: Id|
                    start.nodes.contains_key(other) && !depends(edges, other, id)
                        ==> #[trigger] self@.nodes[other].status == start.nodes[other].status,
                visited.len() > 0,
                visited[0] == id,
                forall|i: int|
                    0 <= i < visited.len() ==> start.nodes.contains_key(#[trigger] visited[i])
                        && depends(edges, visited[i], id),
                forall|other: Id|
                    start.nodes.contains_key(other) && #[trigger] self@.nodes[other].status
                        != start.nodes[other].status ==> visited.contains(other),
            decreases children.len() - k,
        {
            let child: Id = children[k];
            let ghost before = self@;
            proof {
                assert(start.children[id].contains(children@[k as int]));
                assert(start.nodes.contains_key(child) && start.nodes[child].lesson.direct_prerequisites.contains(id));
                let i = choose|i: int|
                    0 <= i < edges[child].len() && edges[child][i] == id;
                lemma_edge_measures(edges, child, i);
                assert(self@.edges() =~= edges);
                lemma_depends_direct(edges, child, i);
                if depends(edges, id, child) {
                    lemma_depends_antisymmetric(edges, id, child);
                }
            }
            let ghost seen = visited;
            let sub = self.update_node_status(child);
            proof {
                visited = visited + sub@;
                assert forall|i: int| 0 <= i < visited.len() implies start.nodes.contains_key(
                    #[trigger] visited[i],
                ) && depends(edges, visited[i], id) by {
                    if i < seen.len() {
                        assert(visited[i] == seen[i]);
                    } else {
                        assert(visited[i] == sub@[i - seen.len()]);
                        law_depends_transitive(edges, visited[i], child, id);
                    }
                }
                assert forall|other: Id|
                    start.nodes.contains_key(other) && #[trigger] self@.nodes[other].status
                        != start.nodes[other].status implies visited.contains(other) by {
                    assert(before.nodes.contains_key(other));
                    if before.nodes[other].status != start.nodes[other].status {
                        let i = choose|i: int| 0 <= i < seen.len() && seen[i] == other;
                        assert(visited[i] == other);
                    } else {
                        assert(self@.nodes[other].status != before.nodes[other].status);
                        let i = choose|i: int| 0 <= i < sub@.len() && sub@[i] == other;
                        assert(visited[seen.len() + i] == other);
                    }
                }
                assert forall|other: Id|
                    start.nodes.contains_key(other) && !depends(edges, other, id) implies
                    #[trigger] self@.nodes[other].status
                    == start.nodes[other].status by {
                    if depends(edges, other, child) {
                        law_depends_transitive(edges, other, child, id);
                    }
                    assert(before.nodes.contains_key(other));
                }
                assert forall|j: int| 0 <= j < k + 1 implies settled(
                    self@.nodes,
                    today,
                    #[trigger] children[j],
                ) by {
                    if j < k {
                        assert(settled(before.nodes, today, children[j]));
                    }
                }
                assert forall|other: Id| settled(changed.nodes, today, other) implies #[trigger] settled(
                    self@.nodes,
                    today,
                    other,
                ) by {
                    assert(settled(before.nodes, today, other));
                }
            }
            k += 1;
        }
        proof {
            assert forall|other: Id| settled(start.nodes, today, other) implies #[trigger] settled(
                self@.nodes,
                today,
                other,
            ) by {
                if other == id {
                    assert(settled(changed.nodes, today, other));
                } else if start.children[id].contains(other) {
                    let j = choose|j: int| 0 <= j < children@.len() && children@[j] == other;
                    assert(settled(self@.nodes, today, children[j]));
                } else {
                    assert(!start.nodes[other].lesson.direct_prerequisites.contains(id));
                    assert(settled(changed.nodes, today, other));
                }
            }
        }
        Ghost(visited)
    }

    /// The identifiers of the nodes, each once, in no particular order.
    pub fn get_ids(&self) -> (ids: Vec<Id>)
        ensures
            ids@.no_duplicates(),
            ids@.to_set() == self@.nodes.dom(),
    {
        assert(self@.nodes.dom() =~= self.nodes@.dom());
        keys_of(&self.nodes)
    }

    /// The number of nodes whose readiness is `Ready`.
    #[verifier::loop_isolation(false)]
    pub fn num_ok_nodes(&self) -> (count: usize)
        ensures
            count == ready_ids(self@.nodes).len(),
    {
        let ids = keys_of(&self.nodes);
        let ghost ready = ready_ids(self@.nodes);
        let mut count: usize = 0;
        let mut k: usize = 0;
        assert(ids@.subrange(0, 0).to_set().intersect(ready) =~= Set::<Id>::empty());
        while k < ids.len()
            invariant
                k <= ids.len(),
                count <= k,
                count == ids@.subrange(0, k as int).to_set().intersect(ready).len(),
            decreases ids.len() - k,
        {
            let id: Id = ids[k];
            proof {
                let seen = ids@.subrange(0, k as int).to_set();
                let next = ids@.subrange(0, k + 1).to_set();
                lemma_prefix_contains(ids@, k as int);
                assert(next =~= seen.insert(id));
                if seen.contains(id) {
                    let j = choose|j: int| 0 <= j < k && ids@.subrange(0, k as int)[j] == id;
                    assert(ids@[j] == ids@[k as int]);
                }
                vstd::seq_lib::seq_to_set_is_finite(ids@.subrange(0, k as int));
                if ready.contains(id) {
                    assert(next.intersect(ready) =~= seen.intersect(ready).insert(id));
                } else {
                    assert(next.intersect(ready) =~= seen.intersect(ready));
                }
                lemma_listed(ids@, self.nodes@.dom(), id);
                assert(ids@.contains(ids@[k as int]));
            }
            if self.nodes.get(&id).unwrap().status.is_ready() {
                count += 1;
            }
            k += 1;
        }
        proof {
            assert(ids@.subrange(0, ids.len() as int) =~= ids@);
            assert(ids@.to_set().intersect(ready) =~= ready);
        }
        count
    }

    /// The nodes of the graph, each once, in no particular order.
    #[verifier::loop_isolation(false)]
    pub fn lessons_iter(&self) -> (nodes: Vec<&GraphNode>)
        ensures
            exists|ids: Seq<Id>|
                #[trigger] lists(node_views(nodes@), ids, self@.nodes)
                    && ids.no_duplicates() && ids.to_set() == self@.nodes.dom(),
    {
        let ids = keys_of(&self.nodes);
        let mut nodes: Vec<&GraphNode> = Vec::new();
        let mut k: usize = 0;
        while k < ids.len()
            invariant
                k <= ids.len(),
                lists(node_views(nodes@), ids@.subrange(0, k as int), self@.nodes),
            decreases ids.len() - k,
        {
            let id: Id = ids[k];
            proof {
                lemma_listed(ids@, self.nodes@.dom(), id);
                assert(ids@.contains(ids@[k as int]));
            }
            let node = self.nodes.get(&id).unwrap();
            let ghost before = node_views(nodes@);
            nodes.push(node);
            proof {
                assert(node_views(nodes@) =~= before.push(node@));
            }
            k += 1;
        }
        proof {
            assert(ids@.subrange(0, ids.len() as int) =~= ids@);
            assert(self@.nodes.dom() =~= self.nodes@.dom());
        }
        nodes
    }

    /// The nodes whose name holds `search_request`, each once, in no
    /// particular order.
    #[verifier::loop_isolation(false)]
    pub fn perform_search(&self, search_request: String) -> (found: Vec<&GraphNode>)
        ensures
            exists|ids: Seq<Id>|
                #[trigger] lists(node_views(found@), ids, self@.nodes)
                    && ids.no_duplicates() && forall|id: Id|
                    ids.contains(id) <==> self@.nodes.contains_key(id) && occurs_in(
                        search_request@,
                        self@.nodes[id].lesson.name,
                    ),
    {
        let ids = keys_of(&self.nodes);
        let mut found: Vec<&GraphNode> = Vec::new();
        let ghost mut kept: Seq<Id> = Seq::empty();
        let mut k: usize = 0;
        while k < ids.len()
            invariant
                k <= ids.len(),
                lists(node_views(found@), kept, self@.nodes),
                kept.no_duplicates(),
                forall|id: Id|
                    kept.contains(id) <==> ids@.subrange(0, k as int).contains(id) && occurs_in(
                        search_request@,
                        self@.nodes[id].lesson.name,
                    ),
            decreases ids.len() - k,
        {
            let id: Id = ids[k];
            proof {
                lemma_listed(ids@, self.nodes@.dom(), id);
                assert(ids@.contains(ids@[k as int]));
                lemma_prefix_contains(ids@, k as int);
                if ids@.subrange(0, k as int).contains(id) {
                    let j = choose|j: int| 0 <= j < k && ids@.subrange(0, k as int)[j] == id;
                    assert(ids@[j] == ids@[k as int]);
                }
            }
            let node = self.nodes.get(&id).unwrap();
            if contains_text(node.lesson.name.as_str(), search_request.as_str()) {
                let ghost before = node_views(found@);
                found.push(node);
                proof {
                    assert(node_views(found@) =~= before.push(node@));
                    lemma_push_contains(kept, id);
                    let longer = kept.push(id);
                    assert forall|i: int, j: int|
                        0 <= i < longer.len() && 0 <= j < longer.len() && i != j implies longer[i]
                        != longer[j] by {
                        if i < kept.len() && j < kept.len() {
                        } else if i < kept.len() {
                            assert(kept.contains(kept[i]));
                        } else {
                            assert(kept.contains(kept[j]));
                        }
                    }
                    kept = longer;
                }
            }
            k += 1;
        }
        proof {
            assert(ids@.subrange(0, ids.len() as int) =~= ids@);
            assert forall|id: Id| kept.contains(id) <==> self@.nodes.contains_key(id) && occurs_in(
                search_request@,
                self@.nodes[id].lesson.name,
            ) by {
                lemma_listed(ids@, self.nodes@.dom(), id);
            }
        }
        found
    }

    /// One of the nodes whose readiness is `Pending`, chosen at random, or
    /// `None` when there is no such node.
    #[verifier::loop_isolation(false)]
    pub fn random_pending(&self, rng: &mut rand::rngs::ThreadRng) -> (picked: Option<Id>)
        ensures
            picked is None <==> forall|id: Id| !is_pending(self@.nodes, id),
            picked matches Some(id) ==> is_pending(self@.nodes, id),
    {
        let ids = keys_of(&self.nodes);
        let mut pending: Vec<Id> = Vec::new();
        let mut k: usize = 0;
        while k < ids.len()
            invariant
                k <= ids.len(),
                forall|id: Id|
                    pending@.contains(id) <==> ids@.subrange(0, k as int).contains(id)
                        && is_pending(self@.nodes, id),
            decreases ids.len() - k,
        {
            let id: Id = ids[k];
            proof {
                lemma_listed(ids@, self.nodes@.dom(), id);
                assert(ids@.contains(ids@[k as int]));
                lemma_prefix_contains(ids@, k as int);
                lemma_push_contains(pending@, id);
            }
            if let NodeStatus::Pending = self.nodes.get(&id).unwrap().status {
                pending.push(id);
            }
            k += 1;
        }
        proof {
            assert(ids@.subrange(0, ids.len() as int) =~= ids@);
            assert forall|id: Id| pending@.contains(id) <==> is_pending(self@.nodes, id) by {
                lemma_listed(ids@, self.nodes@.dom(), id);
            }
        }
        proof {
            if pending@.len() > 0 {
                assert(pending@.contains(pending@[0]));
                assert(is_pending(self@.nodes, pending@[0]));
            } else {
                assert forall|id: Id| !is_pending(self@.nodes, id) by {
                    assert(!pending@.contains(id));
                }
            }
        }
        choose_among(&pending, rng)
    }

    /// The graph of `lessons`, with the readiness of every node taken on
    /// `today`, over the store `backend`. The lessons make a graph where
    /// every prerequisite is one of them, no lesson requires itself,
    /// directly or through other lessons, and the identifiers leave room for
    /// a next one.
    pub fn from_lessons(lessons: HashMap<Id, LessonInfo>, backend: T, today: Date) -> (built: Result<
        Self,
        GraphError<T::Error>,
    >)
        ensures
            built is Ok <==> closed(lesson_edges(lessons@)) && acyclic(lesson_edges(lessons@))
                && !lessons@.contains_key(u64::MAX),
            match built {
                Ok(graph) => {
                    &&& graph.wf()
                    &&& graph@.today == today
                    &&& graph@.nodes.dom() == lessons@.dom()
                    &&& forall|id: Id|
                        lessons@.contains_key(id) ==> #[trigger] graph@.nodes[id].lesson
                            == lessons@[id]@
                    &&& next_after(lessons@.dom(), graph@.next_id)
                    &&& counted(graph@.children, lesson_edges(lessons@))
                    &&& ready_by_rule(graph@.nodes, today)
                },
                Err(GraphError::MissingPrerequisite) => !closed(lesson_edges(lessons@)),
                Err(GraphError::Cycle) => closed(lesson_edges(lessons@)) && !acyclic(
                    lesson_edges(lessons@),
                ),
                Err(GraphError::IdsExhausted) => closed(lesson_edges(lessons@)) && acyclic(
                    lesson_edges(lessons@),
                ) && lessons@.contains_key(u64::MAX),
                Err(GraphError::Storage(_)) => false,
            },
    {
        GraphBuilder::new(lessons, backend, today).into_graph()
    }

    /// The graph of the lessons that the store `backend` holds, with the
    /// readiness of every node taken on `today`.
    pub fn get_from_database(backend: T, today: Date) -> (loaded: Result<Self, GraphError<T::Error>>)
        ensures
            loaded matches Ok(graph) ==> graph.wf() && graph@.today == today && next_after(
                graph@.nodes.dom(),
                graph@.next_id,
            ) && ready_by_rule(graph@.nodes, today),
    {
        let answer = GraphBuilder::load_from_database(backend, today);
        Self::record_loaded(answer)
    }

    /// Takes the answer `answer` of the loading of a builder from a store.
    /// Where the store gave its lessons, the result is what the lessons of
    /// the builder make: their graph, or the reason why they make none, as
    /// `from_lessons` says. Where the store refused, the result is the
    /// refusal.
    pub fn record_loaded(answer: Result<GraphBuilder<T>, T::Error>) -> (loaded: Result<
        Self,
        GraphError<T::Error>,
    >)
        requires
            answer matches Ok(builder) ==> builder.statuses() == Map::<Id, NodeStatus>::empty(),
        ensures
            match answer {
                Ok(builder) => {
                    &&& loaded is Ok <==> closed(lesson_edges(builder.lessons())) && acyclic(
                        lesson_edges(builder.lessons()),
                    ) && !builder.lessons().contains_key(u64::MAX)
                    &&& match loaded {
                        Ok(graph) => {
                            &&& graph.wf()
                            &&& graph@.today == builder.today()
                            &&& graph@.nodes.dom() == builder.lessons().dom()
                            &&& forall|id: Id|
                                builder.lessons().contains_key(id)
                                    ==> #[trigger] graph@.nodes[id].lesson
                                    == builder.lessons()[id]@
                            &&& next_after(builder.lessons().dom(), graph@.next_id)
                            &&& counted(graph@.children, lesson_edges(builder.lessons()))
                            &&& ready_by_rule(graph@.nodes, builder.today())
                        },
                        Err(GraphError::MissingPrerequisite) => !closed(
                            lesson_edges(builder.lessons()),
                        ),
                        Err(GraphError::Cycle) => closed(lesson_edges(builder.lessons()))
                            && !acyclic(lesson_edges(builder.lessons())),
                        Err(GraphError::IdsExhausted) => closed(lesson_edges(builder.lessons()))
                            && acyclic(lesson_edges(builder.lessons()))
                            && builder.lessons().contains_key(u64::MAX),
                        Err(GraphError::Storage(_)) => false,
                    }
                },
                Err(error) => loaded matches Err(GraphError::Storage(refusal)) && refusal == error,
            },
    {
        match answer {
            Ok(builder) => builder.into_graph(),
            Err(error) => Err(GraphError::Storage(error)),
        }
    }

    /// Whether `lesson_info` can be added to the graph: its prerequisites
    /// have to be lessons of the graph, and there has to be an identifier
    /// left for it.
    #[verifier::loop_isolation(false)]
    pub fn can_create(&self, lesson_info: &LessonInfo) -> (allowed: bool)
        ensures
            allowed == self@.creatable(lesson_info@.direct_prerequisites),
    {
        if self.next_id == u64::MAX {
            return false;
        }
        let mut i: usize = 0;
        while i < lesson_info.direct_prerequisites.len()
            invariant
                i <= lesson_info.direct_prerequisites.len(),
                forall|j: int|
                    0 <= j < i ==> self@.nodes.contains_key(
                        #[trigger] lesson_info.direct_prerequisites[j],
                    ),
            decreases lesson_info.direct_prerequisites.len() - i,
        {
            if !self.nodes.contains_key(&lesson_info.direct_prerequisites[i]) {
                return false;
            }
            i += 1;
        }
        true
    }

    /// Whether `lesson_info` can take the place of the lesson `id`: `id` and
    /// the prerequisites of `lesson_info` have to be lessons of the graph,
    /// and none of these prerequisites may depend on `id`.
    #[verifier::loop_isolation(false)]
    pub fn can_edit(&self, id: Id, lesson_info: &LessonInfo) -> (allowed: bool)
        requires
            self@.shaped(),
        ensures
            allowed == self@.editable(id, lesson_info@.direct_prerequisites),
    {
        if !self.nodes.contains_key(&id) {
            return false;
        }
        let mut i: usize = 0;
        while i < lesson_info.direct_prerequisites.len()
            invariant
                i <= lesson_info.direct_prerequisites.len(),
                forall|j: int|
                    0 <= j < i ==> self@.nodes.contains_key(
                        #[trigger] lesson_info.direct_prerequisites[j],
                    ) && !depends(self@.edges(), lesson_info.direct_prerequisites[j], id),
            decreases lesson_info.direct_prerequisites.len() - i,
        {
            let prerequisite: Id = lesson_info.direct_prerequisites[i];
            if !self.nodes.contains_key(&prerequisite) {
                return false;
            }
            if self.depends_on(prerequisite, id) {
                return false;
            }
            i += 1;
        }
        true
    }

    /// The lessons that do not depend on the lesson `id`: those that `id`
    /// can require without requiring itself.
    #[verifier::loop_isolation(false)]
    pub fn independent_of(&self, id: Id) -> (lessons: HashMap<Id, LessonInfo>)
        requires
            self@.shaped(),
        ensures
            forall|other: Id|
                lessons@.contains_key(other) <==> self@.nodes.contains_key(other) && !depends(
                    self@.edges(),
                    other,
                    id,
                ),
            forall|other: Id|
                lessons@.contains_key(other) ==> (#[trigger] lessons@[other])@
                    == self@.nodes[other].lesson,
    {
        let ids = keys_of(&self.nodes);
        let mut lessons: HashMap<Id, LessonInfo> = HashMap::new();
        let mut k: usize = 0;
        while k < ids.len()
            invariant
                k <= ids.len(),
                forall|other: Id|
                    lessons@.contains_key(other) <==> ids@.subrange(0, k as int).contains(other)
                        && !depends(self@.edges(), other, id),
                forall|other: Id|
                    lessons@.contains_key(other) ==> (#[trigger] lessons@[other])@
                        == self@.nodes[other].lesson,
            decreases ids.len() - k,
        {
            let other: Id = ids[k];
            proof {
                lemma_listed(ids@, self.nodes@.dom(), other);
                assert(ids@.contains(ids@[k as int]));
                lemma_prefix_contains(ids@, k as int);
            }
            if !self.depends_on(other, id) {
                lessons.insert(other, self.nodes.get(&other).unwrap().lesson.clone());
            }
            k += 1;
        }
        proof {
            assert(ids@.subrange(0, ids.len() as int) =~= ids@);
            assert forall|other: Id|
                lessons@.contains_key(other) <==> self@.nodes.contains_key(other) && !depends(
                    self@.edges(),
                    other,
                    id,
                ) by {
                lemma_listed(ids@, self.nodes@.dom(), other);
            }
        }
        lessons
    }

    /// A copy of every lesson of the graph with its identifier, each once,
    /// in no particular order.
    #[verifier::loop_isolation(false)]
    pub fn lesson_list(&self) -> (list: Vec<(Id, LessonInfo)>)
        ensures
            list@.len() == self@.nodes.dom().len(),
            forall|i: int, j: int|
                0 <= i < list@.len() && 0 <= j < list@.len() && i != j ==> list@[i].0 != list@[j].0,
            forall|i: int|
                0 <= i < list@.len() ==> self@.nodes.contains_key((#[trigger] list@[i]).0)
                    && list@[i].1@ == self@.nodes[list@[i].0].lesson,
            forall|id: Id|
                self@.nodes.contains_key(id) ==> exists|i: int|
                    0 <= i < list@.len() && (#[trigger] list@[i]).0 == id,
    {
        let ids = keys_of(&self.nodes);
        let mut list: Vec<(Id, LessonInfo)> = Vec::new();
        let mut k: usize = 0;
        while k < ids.len()
            invariant
                k <= ids.len(),
                list@.len() == k,
                forall|i: int| 0 <= i < k ==> (#[trigger] list@[i]).0 == ids@[i],
                forall|i: int|
                    0 <= i < k ==> self@.nodes.contains_key((#[trigger] list@[i]).0)
                        && list@[i].1@ == self@.nodes[list@[i].0].lesson,
            decreases ids.len() - k,
        {
            let id: Id = ids[k];
            proof {
                lemma_listed(ids@, self.nodes@.dom(), id);
                assert(ids@.contains(ids@[k as int]));
            }
            list.push((id, self.nodes.get(&id).unwrap().lesson.clone()));
            k += 1;
        }
        proof {
            assert(self@.nodes.dom() =~= self.nodes@.dom());
            assert forall|id: Id| self@.nodes.contains_key(id) implies exists|i: int|
                0 <= i < list@.len() && (#[trigger] list@[i]).0 == id by {
                lemma_listed(ids@, self.nodes@.dom(), id);
                let i = choose|i: int| 0 <= i < ids@.len() && ids@[i] == id;
                assert(list@[i].0 == id);
            }
        }
        list
    }

    /// A copy of every lesson of the graph.
    #[verifier::loop_isolation(false)]
    pub fn lesson_infos(&self) -> (lessons: HashMap<Id, LessonInfo>)
        ensures
            lessons@.dom() == self@.nodes.dom(),
            forall|other: Id|
                lessons@.contains_key(other) ==> (#[trigger] lessons@[other])@
                    == self@.nodes[other].lesson,
    {
        let ids = keys_of(&self.nodes);
        let mut lessons: HashMap<Id, LessonInfo> = HashMap::new();
        let mut k: usize = 0;
        while k < ids.len()
            invariant
                k <= ids.len(),
                forall|other: Id|
                    lessons@.contains_key(other) <==> ids@.subrange(0, k as int).contains(other),
                forall|other: Id|
                    lessons@.contains_key(other) ==> (#[trigger] lessons@[other])@
                        == self@.nodes[other].lesson,
            decreases ids.len() - k,
        {
            let other: Id = ids[k];
            proof {
                lemma_listed(ids@, self.nodes@.dom(), other);
                assert(ids@.contains(ids@[k as int]));
                lemma_prefix_contains(ids@, k as int);
            }
            lessons.insert(other, self.nodes.get(&other).unwrap().lesson.clone());
            k += 1;
        }
        proof {
            assert(ids@.subrange(0, ids.len() as int) =~= ids@);
            assert forall|other: Id| lessons@.contains_key(other) <==> self@.nodes.contains_key(
                other,
            ) by {
                lemma_listed(ids@, self.nodes@.dom(), other);
            }
            assert(lessons@.dom() =~= self@.nodes.dom());
        }
        lessons
    }

    /// The node of the lesson `id`.
    pub fn get(&self, id: Id) -> (node: &GraphNode)
        requires
            self@.nodes.contains_key(id),
        ensures
            node@ == self@.nodes[id],
    {
        self.nodes.get(&id).unwrap()
    }

    /// Whether the graph holds the lesson `id`.
    pub fn contains(&self, id: Id) -> (found: bool)
        ensures
            found == self@.nodes.contains_key(id),
    {
        self.nodes.contains_key(&id)
    }

    /// The nodes of the graph, by identifier.
    pub fn lessons(&self) -> (nodes: &HashMap<Id, GraphNode>)
        ensures
            nodes_view(nodes@) == self@.nodes,
    {
        &self.nodes
    }

    /// The number of nodes.
    pub fn num_nodes(&self) -> (count: usize)
        ensures
            count == self@.nodes.dom().len(),
    {
        assert(self@.nodes.dom() =~= self.nodes@.dom());
        self.nodes.len()
    }

    /// The lessons that have `id` as a direct prerequisite.
    pub fn get_children(&self, id: &Id) -> (children: &[Id])
        requires
            self@.children.contains_key(*id),
        ensures
            children@ == self@.children[*id],
    {
        self.children.get(id).unwrap().as_slice()
    }

    /// The identifier that the next new lesson gets.
    pub fn next_id(&self) -> (id: Id)
        ensures
            id == self@.next_id,
    {
        self.next_id
    }

    /// The day on which the readiness of the nodes is taken.
    pub fn today(&self) -> (today: Date)
        ensures
            today == self@.today,
    {
        self.today
    }
}

/// Two well-formed graphs with the same lessons, taken on the same day, have
/// the same readiness at every node. So a graph that was brought up to date
/// node by node, after a lesson was created, edited or deleted, holds what
/// building it anew from its lessons would give.
pub proof fn law_propagation_matches_resolution(updated: GraphView, rebuilt: GraphView)
    requires
        updated.wf(),
        rebuilt.wf(),
        same_lessons(updated.nodes, rebuilt.nodes),
        updated.today == rebuilt.today,
    ensures
        updated.nodes == rebuilt.nodes,
{
    law_resolution_unique(updated.nodes, rebuilt.nodes, updated.today);
}

} // verus!
