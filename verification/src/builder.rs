//! Building a graph from the lessons of a store: the lessons are examined,
//! the readiness of every node is resolved, and the index of dependents is
//! laid out.

use crate::graph::Graph;
use crate::index::{counted, index_view, lemma_linked_occurrences, link, occurrences};
use crate::keys::{keys_of, lemma_listed};
use crate::lesson::{
    copy_ids, lemma_prefix_contains, GraphNode, Id, LessonInfo, NodeStatus, NodeView,
};
use crate::readiness::{
    blocking, is_ready, law_resolved_ready_by_rule, lemma_blocking_agrees, lemma_blocking_push,
    readiness, ready_by_rule, settled, Nodes,
};
use crate::relation::{
    acyclic, closed, depth, is_path, lemma_cycle_refutes, lemma_edge_measures, ranked, Edges,
};
use crate::schedule::{Date, LessonStatus};
use crate::storage::IOBackend;
use std::collections::HashMap;
use vstd::prelude::*;

verus! {

broadcast use vstd::std_specs::hash::group_hash_axioms;

/// The prerequisite relation that the lessons hold.
pub open spec fn lesson_edges(lessons: Map<Id, LessonInfo>) -> Edges {
    Map::new(|id: Id| lessons.contains_key(id), |id: Id| lessons[id].direct_prerequisites@)
}

/// Whether every prerequisite of every lesson is itself one of the lessons.
#[verifier::loop_isolation(false)]
pub fn prerequisites_exist(lessons: &HashMap<Id, LessonInfo>) -> (found: bool)
    ensures
        found == closed(lesson_edges(lessons@)),
{
    let ghost edges = lesson_edges(lessons@);
    let ids = keys_of(lessons);
    let mut k: usize = 0;
    while k < ids.len()
        invariant
            k <= ids.len(),
            forall|j: int, i: int|
                0 <= j < k && 0 <= i < edges[ids[j]].len() ==> edges.contains_key(
                    #[trigger] edges[ids[j]][i],
                ),
        decreases ids.len() - k,
    {
        let id: Id = ids[k];
        proof {
            lemma_listed(ids@, lessons@.dom(), id);
            assert(ids@.contains(ids@[k as int]));
        }
        let prerequisites = &lessons.get(&id).unwrap().direct_prerequisites;
        let mut i: usize = 0;
        while i < prerequisites.len()
            invariant
                i <= prerequisites.len(),
                forall|j: int| 0 <= j < i ==> edges.contains_key(#[trigger] edges[id][j]),
            decreases prerequisites.len() - i,
        {
            if !lessons.contains_key(&prerequisites[i]) {
                assert(!edges.contains_key(edges[id][i as int]));
                return false;
            }
            i += 1;
        }
        k += 1;
    }
    proof {
        assert forall|from: Id, i: int|
            edges.contains_key(from) && 0 <= i < edges[from].len() implies edges.contains_key(
            #[trigger] edges[from][i],
        ) by {
            lemma_listed(ids@, lessons@.dom(), from);
            let j = choose|j: int| 0 <= j < ids@.len() && ids@[j] == from;
            assert(edges.contains_key(edges[ids[j]][i]));
        }
    }
    true
}

/// What a search through the prerequisites has seen so far. A lesson is
/// marked 0 while the search is below it; these lessons are those of `trail`,
/// each requiring the next. A lesson that the search has left is marked with
/// a number above those of its prerequisites.
pub open spec fn explored(edges: Edges, marks: Map<Id, usize>, count: usize, trail: Seq<Id>) -> bool {
    &&& marks.dom().finite()
    &&& marks.dom().subset_of(edges.dom())
    &&& forall|id: Id, i: int|
        marks.contains_key(id) && marks[id] > 0 && 0 <= i < edges[id].len() ==> marks.contains_key(
            #[trigger] edges[id][i],
        ) && 0 < marks[edges[id][i]] < marks[id]
    &&& forall|id: Id| marks.contains_key(id) ==> #[trigger] marks[id] <= count
    &&& forall|id: Id| marks.contains_key(id) && #[trigger] marks[id] == 0 ==> trail.contains(id)
    &&& forall|i: int|
        0 <= i < trail.len() ==> marks.contains_key(#[trigger] trail[i]) && marks[trail[i]] == 0
    &&& trail.no_duplicates()
    &&& forall|i: int| 0 <= i < trail.len() - 1 ==> edges[#[trigger] trail[i]].contains(trail[i + 1])
    &&& count + trail.len() == marks.dom().len()
}

/// Every mark of `before` is a mark of `after`.
pub open spec fn keeps(before: Map<Id, usize>, after: Map<Id, usize>) -> bool {
    forall|id: Id|
        #![trigger before.contains_key(id)]
        #![trigger after[id]]
        before.contains_key(id) ==> after.contains_key(id) && after[id] == before[id]
}

/// Searches the prerequisites of `id`, and what they require in turn, for a
/// lesson that the search is below: such a lesson requires itself.
#[verifier::loop_isolation(false)]
fn explore(
    lessons: &HashMap<Id, LessonInfo>,
    marks: &mut HashMap<Id, usize>,
    count: &mut usize,
    id: Id,
    Ghost(trail): Ghost<Seq<Id>>,
) -> (sound: bool)
    requires
        closed(lesson_edges(lessons@)),
        lessons@.contains_key(id),
        !old(marks)@.contains_key(id),
        explored(lesson_edges(lessons@), old(marks)@, *old(count), trail),
        trail.len() > 0 ==> lesson_edges(lessons@)[trail.last()].contains(id),
    ensures
        sound ==> explored(lesson_edges(lessons@), final(marks)@, *final(count), trail),
        sound ==> final(marks)@.contains_key(id) && final(marks)@[id] > 0,
        sound ==> *final(count) >= *old(count),
        sound ==> keeps(old(marks)@, final(marks)@),
        !sound ==> !acyclic(lesson_edges(lessons@)),
    decreases lesson_edges(lessons@).dom().len() - old(marks)@.dom().len(),
{
    let ghost edges = lesson_edges(lessons@);
    let ghost inner = trail.push(id);
    proof {
        assert(edges.dom() =~= lessons@.dom());
        vstd::set_lib::lemma_len_subset(old(marks)@.dom(), edges.dom());
    }
    marks.insert(id, 0);
    proof {
        assert(marks@.dom() =~= old(marks)@.dom().insert(id));
        assert forall|i: int| 0 <= i < inner.len() implies marks@.contains_key(#[trigger] inner[i])
            && marks@[inner[i]] == 0 by {
            if i < trail.len() {
                assert(inner[i] == trail[i]);
            }
        }
        assert forall|other: Id|
            marks@.contains_key(other) && #[trigger] marks@[other] == 0 implies inner.contains(
            other,
        ) by {
            if other == id {
                assert(inner[trail.len() as int] == id);
            } else {
                assert(trail.contains(other));
                let j = choose|j: int| 0 <= j < trail.len() && trail[j] == other;
                assert(inner[j] == other);
            }
        }
        assert forall|i: int, j: int|
            0 <= i < inner.len() && 0 <= j < inner.len() && i != j implies inner[i] != inner[j] by {
            if i < trail.len() && j < trail.len() {
            } else if i < trail.len() {
                assert(old(marks)@.contains_key(trail[i]));
            } else {
                assert(old(marks)@.contains_key(trail[j]));
            }
        }
        assert forall|i: int| 0 <= i < inner.len() - 1 implies edges[#[trigger] inner[i]].contains(
            inner[i + 1],
        ) by {
            if i < trail.len() - 1 {
                assert(edges[trail[i]].contains(trail[i + 1]));
            }
        }
        assert forall|other: Id, i: int|
            marks@.contains_key(other) && marks@[other] > 0 && 0 <= i < edges[other].len() implies marks@.contains_key(
            #[trigger] edges[other][i],
        ) && 0 < marks@[edges[other][i]] < marks@[other] by {
            assert(old(marks)@.contains_key(edges[other][i]));
        }
        assert(explored(edges, marks@, *count, inner));
    }
    let prerequisites = &lessons.get(&id).unwrap().direct_prerequisites;
    assert(edges[id] == prerequisites@);
    let mut i: usize = 0;
    while i < prerequisites.len()
        invariant
            i <= prerequisites.len(),
            explored(edges, marks@, *count, inner),
            *count >= *old(count),
            forall|j: int|
                0 <= j < i ==> marks@.contains_key(#[trigger] prerequisites[j])
                    && marks@[prerequisites[j]] > 0,
            keeps(old(marks)@, marks@),
        decreases prerequisites.len() - i,
    {
        let next: Id = prerequisites[i];
        let ghost before = marks@;
        assert(edges.contains_key(edges[id][i as int]));
        assert(edges[id].contains(next));
        let mark: Option<usize> = match marks.get(&next) {
            Some(mark) => Some(*mark),
            None => None,
        };
        match mark {
            None => {
                proof {
                    assert(inner.last() == id);
                    vstd::set_lib::lemma_len_subset(marks@.dom(), edges.dom());
                }
                if !explore(lessons, marks, count, next, Ghost(inner)) {
                    return false;
                }
            },
            Some(mark) => {
                if mark == 0 {
                    proof {
                        assert(inner.contains(next));
                        let j = choose|j: int| 0 <= j < inner.len() && inner[j] == next;
                        let cycle = inner.subrange(j, inner.len() as int).push(next);
                        assert forall|n: int| 0 <= n < cycle.len() - 1 implies edges.contains_key(
                            #[trigger] cycle[n],
                        ) && edges[cycle[n]].contains(cycle[n + 1]) by {
                            assert(cycle[n] == inner[j + n]);
                            assert(marks@.contains_key(inner[j + n]));
                            if n < cycle.len() - 2 {
                                assert(cycle[n + 1] == inner[j + n + 1]);
                                assert(edges[inner[j + n]].contains(inner[j + n + 1]));
                            } else {
                                assert(inner[j + n] == id);
                            }
                        }
                        assert(is_path(edges, cycle));
                        assert(cycle.first() == inner[j]);
                        lemma_cycle_refutes(edges, cycle);
                    }
                    return false;
                }
            },
        }
        proof {
            assert forall|j: int| 0 <= j < i + 1 implies marks@.contains_key(
                #[trigger] prerequisites[j],
            ) && marks@[prerequisites[j]] > 0 by {
                if j < i {
                    assert(before.contains_key(prerequisites[j]));
                }
            }
        }
        i += 1;
    }
    let ghost below = marks@;
    proof {
        assert(inner.len() > 0);
        assert(below.contains_key(inner[trail.len() as int]));
        assert(*count + inner.len() == below.dom().len());
        assert(below.dom().len() <= usize::MAX) by {
            assert(marks.len() == below.len());
        }
    }
    *count = *count + 1;
    marks.insert(id, *count);
    proof {
        assert(marks@.dom() =~= below.dom());
        assert forall|i: int| 0 <= i < trail.len() implies marks@.contains_key(#[trigger] trail[i])
            && marks@[trail[i]] == 0 by {
            assert(inner[i] == trail[i]);
            assert(inner[trail.len() as int] == id);
        }
        assert forall|other: Id|
            marks@.contains_key(other) && #[trigger] marks@[other] == 0 implies trail.contains(
            other,
        ) by {
            assert(below[other] == 0);
            assert(inner.contains(other));
            let j = choose|j: int| 0 <= j < inner.len() && inner[j] == other;
            assert(trail[j] == other);
        }
        assert forall|i: int, j: int|
            0 <= i < trail.len() && 0 <= j < trail.len() && i != j implies trail[i] != trail[j] by {
            assert(inner[i] == trail[i] && inner[j] == trail[j]);
        }
        assert forall|i: int| 0 <= i < trail.len() - 1 implies edges[#[trigger] trail[i]].contains(
            trail[i + 1],
        ) by {
            assert(inner[i] == trail[i] && inner[i + 1] == trail[i + 1]);
        }
        assert forall|other: Id, i: int|
            marks@.contains_key(other) && marks@[other] > 0 && 0 <= i < edges[other].len() implies marks@.contains_key(
            #[trigger] edges[other][i],
        ) && 0 < marks@[edges[other][i]] < marks@[other] by {
            if other == id {
                assert(below.contains_key(prerequisites[i]) && below[prerequisites[i]] > 0);
                assert(below[prerequisites[i]] <= *count - 1);
            } else {
                assert(below.contains_key(edges[other][i]) && 0 < below[edges[other][i]]);
            }
        }
    }
    true
}

/// Whether no lesson requires itself, directly or through other lessons.
#[verifier::loop_isolation(false)]
pub fn has_no_cycle(lessons: &HashMap<Id, LessonInfo>) -> (sound: bool)
    requires
        closed(lesson_edges(lessons@)),
    ensures
        sound == acyclic(lesson_edges(lessons@)),
{
    let ghost edges = lesson_edges(lessons@);
    let ids = keys_of(lessons);
    let mut marks: HashMap<Id, usize> = HashMap::new();
    let mut count: usize = 0;
    let mut k: usize = 0;
    assert(marks@.dom() =~= Set::<Id>::empty());
    while k < ids.len()
        invariant
            k <= ids.len(),
            explored(edges, marks@, count, Seq::<Id>::empty()),
            forall|j: int| 0 <= j < k ==> marks@.contains_key(#[trigger] ids[j]),
        decreases ids.len() - k,
    {
        let id: Id = ids[k];
        let ghost before = marks@;
        proof {
            lemma_listed(ids@, lessons@.dom(), id);
            assert(ids@.contains(ids@[k as int]));
        }
        if !marks.contains_key(&id) {
            if !explore(lessons, &mut marks, &mut count, id, Ghost(Seq::empty())) {
                return false;
            }
        }
        proof {
            assert forall|j: int| 0 <= j < k + 1 implies marks@.contains_key(#[trigger] ids[j]) by {
                if j < k {
                    assert(before.contains_key(ids[j]));
                }
            }
        }
        k += 1;
    }
    proof {
        let view = marks@;
        let rank = |id: Id| view[id] as nat;
        let bound = (count + 1) as nat;
        assert forall|id: Id| edges.contains_key(id) implies view.contains_key(id) && view[id]
            > 0 by {
            lemma_listed(ids@, lessons@.dom(), id);
            let j = choose|j: int| 0 <= j < ids@.len() && ids@[j] == id;
            assert(view.contains_key(ids[j]));
            if view[id] == 0 {
                assert(Seq::<Id>::empty().contains(id));
            }
        }
        assert forall|from: Id, i: int|
            edges.contains_key(from) && 0 <= i < edges[from].len() implies rank(
            #[trigger] edges[from][i],
        ) < rank(from) by {
            assert(view.contains_key(from) && view[from] > 0);
        }
        assert forall|id: Id| edges.contains_key(id) implies #[trigger] rank(id) < bound by {
            assert(view.contains_key(id));
        }
        assert(ranked(edges, rank, bound));
    }
    true
}

/// `next` is the identifier after the largest of `ids`, or 0 where there is
/// none.
pub open spec fn next_after(ids: Set<Id>, next: Id) -> bool {
    &&& forall|id: Id| ids.contains(id) ==> id < next
    &&& next == 0 || ids.contains((next - 1) as Id)
}

/// Why a set of lessons could not be made a graph.
#[derive(Debug)]
pub enum GraphError<E> {
    /// The store failed.
    Storage(E),
    /// A lesson requires a lesson that does not exist.
    MissingPrerequisite,
    /// A lesson requires itself, directly or through other lessons.
    Cycle,
    /// The largest identifier leaves no room for the next one.
    IdsExhausted,
}

/// The nodes that the lessons make with the readiness resolved so far.
pub open spec fn memo_nodes(lessons: Map<Id, LessonInfo>, statuses: Map<Id, NodeStatus>) -> Nodes {
    Map::new(
        |id: Id| lessons.contains_key(id) && statuses.contains_key(id),
        |id: Id| NodeView { lesson: lessons[id]@, status: statuses[id]@ },
    )
}

/// The readiness resolved for `id` is the one that the rule gives it, and
/// rests on prerequisites that are resolved too.
pub open spec fn sound_at(
    lessons: Map<Id, LessonInfo>,
    statuses: Map<Id, NodeStatus>,
    today: Date,
    id: Id,
) -> bool {
    &&& lessons.contains_key(id)
    &&& statuses[id]@ == readiness(
        lessons[id].status,
        lessons[id].direct_prerequisites@,
        memo_nodes(lessons, statuses),
        today,
    )
    &&& lessons[id].status is GoodEnough || forall|i: int|
        0 <= i < lessons[id].direct_prerequisites@.len() ==> statuses.contains_key(
            #[trigger] lessons[id].direct_prerequisites@[i],
        )
}

/// Every readiness resolved so far is sound.
pub open spec fn memo_sound(
    lessons: Map<Id, LessonInfo>,
    statuses: Map<Id, NodeStatus>,
    today: Date,
) -> bool {
    forall|id: Id| statuses.contains_key(id) ==> sound_at(lessons, statuses, today, id)
}

/// What was resolved in `before` is resolved alike in `after`.
pub open spec fn grows(before: Map<Id, NodeStatus>, after: Map<Id, NodeStatus>) -> bool {
    forall|id: Id|
        #![trigger before.contains_key(id)]
        #![trigger after[id]]
        before.contains_key(id) ==> after.contains_key(id) && after[id]@ == before[id]@
}

/// A readiness that was sound stays sound as more nodes are resolved.
proof fn lemma_memo_grows(
    lessons: Map<Id, LessonInfo>,
    before: Map<Id, NodeStatus>,
    after: Map<Id, NodeStatus>,
    today: Date,
    id: Id,
)
    requires
        memo_sound(lessons, before, today),
        grows(before, after),
        before.contains_key(id),
    ensures
        sound_at(lessons, after, today, id),
{
    assert(sound_at(lessons, before, today, id));
    let prerequisites = lessons[id].direct_prerequisites@;
    if !(lessons[id].status is GoodEnough) {
        assert forall|i: int| 0 <= i < prerequisites.len() implies is_ready(
            memo_nodes(lessons, before),
            #[trigger] prerequisites[i],
        ) == is_ready(memo_nodes(lessons, after), prerequisites[i]) by {
            assert(before.contains_key(prerequisites[i]));
            assert(sound_at(lessons, before, today, prerequisites[i]));
        }
        lemma_blocking_agrees(
            prerequisites,
            memo_nodes(lessons, before),
            memo_nodes(lessons, after),
        );
    }
}

/// The lessons of a store on their way to a graph: the readiness of each
/// node is resolved once and kept.
pub struct GraphBuilder<Backend: IOBackend> {
    lessons: HashMap<Id, LessonInfo>,
    statuses: HashMap<Id, NodeStatus>,
    today: Date,
    backend: Backend,
}

impl<Backend: IOBackend> GraphBuilder<Backend> {
    /// The lessons of the builder.
    pub closed spec fn lessons(&self) -> Map<Id, LessonInfo> {
        self.lessons@
    }

    /// The readiness resolved so far.
    pub closed spec fn statuses(&self) -> Map<Id, NodeStatus> {
        self.statuses@
    }

    /// The day on which the readiness is taken.
    pub closed spec fn today(&self) -> Date {
        self.today
    }

    /// A builder over `lessons`, with nothing resolved.
    pub fn new(lessons: HashMap<Id, LessonInfo>, backend: Backend, today: Date) -> (builder: Self)
        ensures
            builder.lessons() == lessons@,
            builder.statuses() == Map::<Id, NodeStatus>::empty(),
            builder.today() == today,
    {
        GraphBuilder { lessons, statuses: HashMap::new(), today, backend }
    }

    /// A builder over the lessons of the store `backend`, with nothing
    /// resolved.
    pub fn load_from_database(backend: Backend, today: Date) -> (loaded: Result<
        Self,
        Backend::Error,
    >)
        ensures
            loaded matches Ok(builder) ==> builder.statuses() == Map::<Id, NodeStatus>::empty()
                && builder.today() == today,
    {
        let answer = backend.query_lessons();
        Self::record_loaded(answer, backend, today)
    }

    /// Takes the answer `answer` of the store `backend` to the query for
    /// its lessons. Where the store gave its lessons, the result is a
    /// builder over them, with nothing resolved; where it refused, the
    /// result is the refusal.
    pub fn record_loaded(
        answer: Result<HashMap<Id, LessonInfo>, Backend::Error>,
        backend: Backend,
        today: Date,
    ) -> (loaded: Result<Self, Backend::Error>)
        ensures
            match answer {
                Ok(lessons) => loaded matches Ok(builder) && builder.lessons() == lessons@
                    && builder.statuses() == Map::<Id, NodeStatus>::empty() && builder.today()
                    == today,
                Err(error) => loaded matches Err(refusal) && refusal == error,
            },
    {
        match answer {
            Ok(lessons) => Ok(GraphBuilder { lessons, statuses: HashMap::new(), today, backend }),
            Err(error) => Err(error),
        }
    }

    /// The readiness of the node `id`: the one resolved before, or else the
    /// one that the rule gives it from the readiness of its prerequisites,
    /// which are resolved first. Either way it is kept.
    #[verifier::loop_isolation(false)]
    pub fn get_status(&mut self, id: Id) -> (status: NodeStatus)
        requires
            closed(lesson_edges(old(self).lessons())),
            acyclic(lesson_edges(old(self).lessons())),
            old(self).lessons().contains_key(id),
            memo_sound(old(self).lessons(), old(self).statuses(), old(self).today()),
        ensures
            final(self).lessons() == old(self).lessons(),
            final(self).today() == old(self).today(),
            memo_sound(final(self).lessons(), final(self).statuses(), final(self).today()),
            grows(old(self).statuses(), final(self).statuses()),
            final(self).statuses().contains_key(id),
            status@ == final(self).statuses()[id]@,
            forall|other: Id|
                final(self).statuses().contains_key(other) && !old(self).statuses().contains_key(
                    other,
                ) ==> depth(lesson_edges(old(self).lessons()), other) <= depth(
                    lesson_edges(old(self).lessons()),
                    id,
                ),
        decreases depth(lesson_edges(old(self).lessons()), id),
    {
        let ghost lessons = self.lessons@;
        let ghost edges = lesson_edges(lessons);
        let ghost today = self.today;
        let ghost known = self.statuses@;
        if let Some(status) = self.statuses.get(&id) {
            return status.clone();
        }
        let lesson_status = self.lessons.get(&id).unwrap().status;
        if let LessonStatus::GoodEnough = lesson_status {
            self.statuses.insert(id, NodeStatus::Ready);
            proof {
                assert forall|other: Id| self.statuses@.contains_key(other) implies sound_at(
                    lessons,
                    self.statuses@,
                    today,
                    other,
                ) by {
                    if other != id {
                        lemma_memo_grows(lessons, known, self.statuses@, today, other);
                    }
                }
            }
            return NodeStatus::Ready;
        }
        let prereqs = copy_ids(&self.lessons.get(&id).unwrap().direct_prerequisites);
        assert(edges[id] == prereqs@);
        let mut missing_prereqs: Vec<Id> = Vec::new();
        let mut i: usize = 0;
        proof {
            reveal(Seq::filter);
        }
        while i < prereqs.len()
            invariant
                i <= prereqs.len(),
                self.lessons@ == lessons,
                self.today == today,
                memo_sound(lessons, self.statuses@, today),
                grows(known, self.statuses@),
                forall|j: int| 0 <= j < i ==> self.statuses@.contains_key(#[trigger] prereqs[j]),
                missing_prereqs@ == blocking(
                    prereqs@.subrange(0, i as int),
                    memo_nodes(lessons, self.statuses@),
                ),
                forall|other: Id|
                    self.statuses@.contains_key(other) && !known.contains_key(other) ==> depth(
                        edges,
                        other,
                    ) < depth(edges, id),
            decreases prereqs.len() - i,
        {
            let prereq_id: Id = prereqs[i];
            let ghost before = self.statuses@;
            proof {
                lemma_edge_measures(edges, id, i as int);
                assert(edges.contains_key(edges[id][i as int]));
            }
            let prereq_status = self.get_status(prereq_id);
            proof {
                let after = self.statuses@;
                let done = prereqs@.subrange(0, i as int);
                assert forall|j: int| 0 <= j < done.len() implies is_ready(
                    memo_nodes(lessons, before),
                    #[trigger] done[j],
                ) == is_ready(memo_nodes(lessons, after), done[j]) by {
                    assert(before.contains_key(prereqs[j]));
                    assert(sound_at(lessons, before, today, prereqs[j]));
                }
                lemma_blocking_agrees(
                    done,
                    memo_nodes(lessons, before),
                    memo_nodes(lessons, after),
                );
                lemma_blocking_push(done, prereq_id, memo_nodes(lessons, after));
                assert(prereqs@.subrange(0, i + 1) =~= done.push(prereq_id));
                assert(sound_at(lessons, after, today, prereq_id));
                assert forall|j: int| 0 <= j < i + 1 implies after.contains_key(
                    #[trigger] prereqs[j],
                ) by {
                    if j < i {
                        assert(before.contains_key(prereqs[j]));
                    }
                }
                assert forall|other: Id| known.contains_key(other) implies after.contains_key(other)
                    && after[other]@ == known[other]@ by {
                    assert(before.contains_key(other));
                }
            }
            if !prereq_status.is_ready() {
                missing_prereqs.push(prereq_id);
            }
            i += 1;
        }
        let ghost resolved = self.statuses@;
        assert(prereqs@.subrange(0, prereqs.len() as int) =~= prereqs@);
        let status = if missing_prereqs.is_empty() {
            if self.lessons.get(&id).unwrap().status.needs_work(self.today) {
                NodeStatus::Pending
            } else {
                NodeStatus::Ready
            }
        } else {
            NodeStatus::MissingPrereq(missing_prereqs)
        };
        self.statuses.insert(id, status.clone());
        proof {
            let after = self.statuses@;
            assert(!resolved.contains_key(id));
            assert forall|j: int| 0 <= j < prereqs@.len() implies is_ready(
                memo_nodes(lessons, resolved),
                #[trigger] prereqs@[j],
            ) == is_ready(memo_nodes(lessons, after), prereqs@[j]) by {
                lemma_edge_measures(edges, id, j);
                assert(resolved.contains_key(prereqs[j]));
            }
            lemma_blocking_agrees(
                prereqs@,
                memo_nodes(lessons, resolved),
                memo_nodes(lessons, after),
            );
            assert forall|j: int| 0 <= j < prereqs@.len() implies after.contains_key(
                #[trigger] lessons[id].direct_prerequisites@[j],
            ) by {
                assert(resolved.contains_key(prereqs[j]));
            }
            assert(sound_at(lessons, after, today, id));
            assert forall|other: Id| after.contains_key(other) implies sound_at(
                lessons,
                after,
                today,
                other,
            ) by {
                if other != id {
                    lemma_memo_grows(lessons, resolved, after, today, other);
                }
            }
            assert forall|other: Id| known.contains_key(other) implies after.contains_key(other)
                && after[other]@ == known[other]@ by {
                assert(resolved.contains_key(other));
            }
        }
        status
    }

    /// The graph of the lessons, if they make one: every prerequisite has
    /// to be one of the lessons, no lesson may require itself, and the
    /// identifiers have to leave room for a next one.
    #[verifier::loop_isolation(false)]
    pub fn into_graph(self) -> (built: Result<Graph<Backend>, GraphError<Backend::Error>>)
        requires
            self.statuses() == Map::<Id, NodeStatus>::empty(),
        ensures
            built is Ok <==> closed(lesson_edges(self.lessons())) && acyclic(
                lesson_edges(self.lessons()),
            ) && !self.lessons().contains_key(u64::MAX),
            match built {
                Ok(graph) => {
                    &&& graph.wf()
                    &&& graph@.today == self.today()
                    &&& graph@.nodes.dom() == self.lessons().dom()
                    &&& forall|id: Id|
                        self.lessons().contains_key(id) ==> #[trigger] graph@.nodes[id].lesson
                            == self.lessons()[id]@
                    &&& next_after(self.lessons().dom(), graph@.next_id)
                    &&& counted(graph@.children, lesson_edges(self.lessons()))
                    &&& ready_by_rule(graph@.nodes, self.today())
                },
                Err(GraphError::MissingPrerequisite) => !closed(lesson_edges(self.lessons())),
                Err(GraphError::Cycle) => closed(lesson_edges(self.lessons())) && !acyclic(
                    lesson_edges(self.lessons()),
                ),
                Err(GraphError::IdsExhausted) => closed(lesson_edges(self.lessons())) && acyclic(
                    lesson_edges(self.lessons()),
                ) && self.lessons().contains_key(u64::MAX),
                Err(GraphError::Storage(_)) => false,
            },
    {
        let mut builder = self;
        let ghost lessons = builder.lessons@;
        let ghost edges = lesson_edges(lessons);
        let ghost today = builder.today;
        if !prerequisites_exist(&builder.lessons) {
            return Err(GraphError::MissingPrerequisite);
        }
        if !has_no_cycle(&builder.lessons) {
            return Err(GraphError::Cycle);
        }
        let ids = keys_of(&builder.lessons);
        let mut max_id: Option<Id> = None;
        let mut k: usize = 0;
        while k < ids.len()
            invariant
                k <= ids.len(),
                max_id is None <==> k == 0,
                max_id matches Some(highest) ==> ids@.contains(highest) && forall|j: int|
                    0 <= j < k ==> #[trigger] ids[j] <= highest,
            decreases ids.len() - k,
        {
            let id: Id = ids[k];
            assert(ids@.contains(ids@[k as int]));
            max_id =
            match max_id {
                None => Some(id),
                Some(current_max) => Some(
                    if current_max < id {
                        id
                    } else {
                        current_max
                    },
                ),
            };
            k += 1;
        }
        let next_id: Id = match max_id {
            None => 0,
            Some(highest) => {
                proof {
                    lemma_listed(ids@, lessons.dom(), highest);
                }
                if highest == u64::MAX {
                    return Err(GraphError::IdsExhausted);
                }
                highest + 1
            },
        };
        proof {
            assert forall|id: Id| lessons.dom().contains(id) implies id < next_id by {
                lemma_listed(ids@, lessons.dom(), id);
                let j = choose|j: int| 0 <= j < ids@.len() && ids@[j] == id;
                assert(ids[j] == id);
            }
        }
        builder.resolve();
        let ghost statuses = builder.statuses@;
        let ghost target = memo_nodes(lessons, statuses);
        let mut children: HashMap<Id, Vec<Id>> = HashMap::new();
        k = 0;
        while k < ids.len()
            invariant
                k <= ids.len(),
                forall|id: Id| children@.contains_key(id) <==> ids@.subrange(0, k as int).contains(id),
                forall|id: Id| children@.contains_key(id) ==> (#[trigger] children@[id])@.len() == 0,
            decreases ids.len() - k,
        {
            proof {
                lemma_prefix_contains(ids@, k as int);
            }
            children.insert(ids[k], Vec::new());
            k += 1;
        }
        proof {
            assert(ids@.subrange(0, ids.len() as int) =~= ids@);
            assert forall|id: Id| children@.contains_key(id) <==> lessons.contains_key(id) by {
                lemma_listed(ids@, lessons.dom(), id);
            }
            assert(children@.dom() =~= lessons.dom());
        }
        k = 0;
        while k < ids.len()
            invariant
                k <= ids.len(),
                builder.lessons@ == lessons,
                children@.dom() == lessons.dom(),
                forall|parent: Id, child: Id|
                    children@.contains_key(parent) ==> (#[trigger] children@[parent]@.contains(child)
                        <==> ids@.subrange(0, k as int).contains(child)
                        && lessons[child].direct_prerequisites@.contains(parent)),
                forall|parent: Id, child: Id|
                    children@.contains_key(parent) ==> #[trigger] occurrences(
                        children@[parent]@,
                        child,
                    ) == (if ids@.subrange(0, k as int).contains(child) {
                        occurrences(lessons[child].direct_prerequisites@, parent)
                    } else {
                        0
                    }),
            decreases ids.len() - k,
        {
            let id: Id = ids[k];
            let ghost before = children@;
            proof {
                lemma_listed(ids@, lessons.dom(), id);
                assert(ids@.contains(ids@[k as int]));
                lemma_prefix_contains(ids@, k as int);
                assert forall|i: int|
                    0 <= i < lessons[id].direct_prerequisites@.len() implies children@.contains_key(
                    #[trigger] lessons[id].direct_prerequisites@[i],
                ) by {
                    assert(edges.contains_key(edges[id][i]));
                }
            }
            link(&mut children, &builder.lessons.get(&id).unwrap().direct_prerequisites, id);
            proof {
                assert forall|parent: Id, child: Id| children@.contains_key(parent) implies (
                #[trigger] children@[parent]@.contains(child) <==> ids@.subrange(0, k + 1).contains(
                    child,
                ) && lessons[child].direct_prerequisites@.contains(parent)) by {
                    assert(before[parent]@.contains(child) <==> ids@.subrange(
                        0,
                        k as int,
                    ).contains(child) && lessons[child].direct_prerequisites@.contains(parent));
                    if ids@.subrange(0, k as int).contains(id) {
                        let j = choose|j: int| 0 <= j < k && ids@.subrange(0, k as int)[j] == id;
                        assert(ids@[j] == ids@[k as int]);
                    }
                }
                assert forall|parent: Id, child: Id|
                    children@.contains_key(parent) implies #[trigger] occurrences(
                    children@[parent]@,
                    child,
                ) == (if ids@.subrange(0, k + 1).contains(child) {
                    occurrences(lessons[child].direct_prerequisites@, parent)
                } else {
                    0
                }) by {
                    lemma_linked_occurrences(
                        index_view(before),
                        lessons[id].direct_prerequisites@,
                        id,
                        parent,
                        child,
                    );
                    assert(index_view(children@)[parent] == children@[parent]@);
                    assert(index_view(before)[parent] == before[parent]@);
                    if ids@.subrange(0, k as int).contains(id) {
                        let j = choose|j: int| 0 <= j < k && ids@.subrange(0, k as int)[j] == id;
                        assert(ids@[j] == ids@[k as int]);
                    }
                }
            }
            k += 1;
        }
        let mut nodes: HashMap<Id, GraphNode> = HashMap::new();
        k = 0;
        while k < ids.len()
            invariant
                k <= ids.len(),
                builder.today == today,
                forall|id: Id| nodes@.contains_key(id) <==> ids@.subrange(0, k as int).contains(id),
                forall|id: Id| nodes@.contains_key(id) ==> (#[trigger] nodes@[id])@ == target[id],
                forall|j: int|
                    k <= j < ids.len() ==> builder.lessons@.contains_key(#[trigger] ids[j])
                        && builder.lessons@[ids[j]] == lessons[ids[j]],
                forall|j: int|
                    k <= j < ids.len() ==> builder.statuses@.contains_key(#[trigger] ids[j])
                        && builder.statuses@[ids[j]] == statuses[ids[j]],
            decreases ids.len() - k,
        {
            let id: Id = ids[k];
            proof {
                lemma_prefix_contains(ids@, k as int);
                lemma_listed(ids@, lessons.dom(), id);
                assert(ids@.contains(ids@[k as int]));
                assert(builder.lessons@.contains_key(ids[k as int]));
                assert(builder.statuses@.contains_key(ids[k as int]));
            }
            let ghost lessons_before = builder.lessons@;
            let ghost statuses_before = builder.statuses@;
            let lesson = builder.lessons.remove(&id).unwrap();
            let status = builder.statuses.remove(&id).unwrap();
            nodes.insert(id, GraphNode { lesson, status });
            proof {
                assert forall|j: int| k + 1 <= j < ids.len() implies builder.lessons@.contains_key(
                    #[trigger] ids[j],
                ) && builder.lessons@[ids[j]] == lessons[ids[j]] && builder.statuses@.contains_key(ids[j])
                    && builder.statuses@[ids[j]] == statuses[ids[j]] by {
                    assert(ids@[j] != ids@[k as int]);
                    assert(lessons_before.contains_key(ids[j]));
                    assert(statuses_before.contains_key(ids[j]));
                }
            }
            k += 1;
        }
        let graph = Graph { nodes, children, next_id, today: builder.today, io_backend: builder.backend };
        proof {
            assert(ids@.subrange(0, ids.len() as int) =~= ids@);
            assert forall|id: Id| graph@.nodes.contains_key(id) <==> lessons.contains_key(id) by {
                lemma_listed(ids@, lessons.dom(), id);
            }
            assert(graph@.nodes =~= target);
            assert(graph@.nodes.dom() =~= lessons.dom());
            assert(graph@.edges() =~= edges);
            assert(graph@.children.dom() =~= graph@.nodes.dom());
            assert forall|parent: Id, child: Id| graph@.children.contains_key(parent) implies (
            #[trigger] graph@.children[parent].contains(child) <==> graph@.nodes.contains_key(child)
                && graph@.nodes[child].lesson.direct_prerequisites.contains(parent)) by {
                lemma_listed(ids@, lessons.dom(), child);
                assert(graph.children@[parent]@.contains(child) <==> ids@.contains(child)
                    && lessons[child].direct_prerequisites@.contains(parent));
            }
            assert forall|id: Id| graph@.nodes.contains_key(id) implies settled(
                graph@.nodes,
                today,
                id,
            ) by {
                assert(sound_at(lessons, statuses, today, id));
            }
            assert forall|parent: Id, child: Id|
                graph@.children.contains_key(parent) implies #[trigger] occurrences(
                graph@.children[parent],
                child,
            ) == (if edges.contains_key(child) {
                occurrences(edges[child], parent)
            } else {
                0
            }) by {
                lemma_listed(ids@, lessons.dom(), child);
                assert(graph@.children[parent] == graph.children@[parent]@);
            }
            law_resolved_ready_by_rule(graph@.nodes, today);
        }
        Ok(graph)
    }

    /// Resolves the readiness of every node.
    #[verifier::loop_isolation(false)]
    pub fn resolve(&mut self)
        requires
            closed(lesson_edges(old(self).lessons())),
            acyclic(lesson_edges(old(self).lessons())),
            memo_sound(old(self).lessons(), old(self).statuses(), old(self).today()),
        ensures
            final(self).lessons() == old(self).lessons(),
            final(self).today() == old(self).today(),
            memo_sound(final(self).lessons(), final(self).statuses(), final(self).today()),
            forall|id: Id|
                final(self).lessons().contains_key(id) ==> final(self).statuses().contains_key(id),
    {
        let keys = keys_of(&self.lessons);
        let mut k: usize = 0;
        while k < keys.len()
            invariant
                k <= keys.len(),
                self.lessons@ == old(self).lessons@,
                self.today == old(self).today,
                memo_sound(self.lessons@, self.statuses@, self.today),
                forall|j: int| 0 <= j < k ==> self.statuses@.contains_key(#[trigger] keys[j]),
            decreases keys.len() - k,
        {
            let ghost before = self.statuses@;
            proof {
                lemma_listed(keys@, self.lessons@.dom(), keys[k as int]);
                assert(keys@.contains(keys@[k as int]));
            }
            let _ = self.get_status(keys[k]);
            proof {
                assert forall|j: int| 0 <= j < k + 1 implies self.statuses@.contains_key(
                    #[trigger] keys[j],
                ) by {
                    if j < k {
                        assert(before.contains_key(keys[j]));
                    }
                }
            }
            k += 1;
        }
        proof {
            assert forall|id: Id| self.lessons@.contains_key(id) implies self.statuses@.contains_key(
                id,
            ) by {
                lemma_listed(keys@, self.lessons@.dom(), id);
                let j = choose|j: int| 0 <= j < keys@.len() && keys@[j] == id;
                assert(self.statuses@.contains_key(keys[j]));
            }
        }
    }
}

} // verus!
