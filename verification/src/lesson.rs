//! Lessons, graph nodes, and their mathematical views.

use crate::schedule::LessonStatus;
use vstd::prelude::*;

verus! {

/// The identifier of a lesson.
pub type Id = u64;

/// What is known of a lesson, whatever the state of the other lessons.
#[derive(Debug, PartialEq, Eq)]
pub struct LessonInfo {
    pub name: String,
    /// The lessons that this one requires, by identifier.
    pub direct_prerequisites: Vec<Id>,
    pub status: LessonStatus,
    pub tags: Vec<String>,
}

/// A `LessonInfo` as a mathematical value.
pub struct LessonView {
    pub name: Seq<char>,
    pub direct_prerequisites: Seq<Id>,
    pub status: LessonStatus,
    pub tags: Seq<Seq<char>>,
}

impl View for LessonInfo {
    type V = LessonView;

    open spec fn view(&self) -> LessonView {
        LessonView {
            name: self.name@,
            direct_prerequisites: self.direct_prerequisites@,
            status: self.status,
            tags: self.tags@.map_values(|tag: String| tag@),
        }
    }
}

/// A lesson together with its identifier.
#[derive(Debug, PartialEq, Eq)]
pub struct Lesson {
    /// The identifier by which other lessons name this one as a
    /// prerequisite.
    id: Id,
    pub name: String,
    /// The lessons that this one requires, by identifier.
    pub direct_prerequisites: Vec<Id>,
    pub status: LessonStatus,
}

impl Lesson {
    /// The identifier of the lesson, as a mathematical value.
    pub closed spec fn id(&self) -> Id {
        self.id
    }

    /// What the lesson holds beside its identifier, as a mathematical
    /// value. It holds no tags.
    pub closed spec fn info(&self) -> LessonView {
        LessonView {
            name: self.name@,
            direct_prerequisites: self.direct_prerequisites@,
            status: self.status,
            tags: Seq::empty(),
        }
    }

    /// The lesson `lesson_info` under the identifier `id`. Its tags are not
    /// kept.
    pub fn new(id: Id, lesson_info: LessonInfo) -> (lesson: Lesson)
        ensures
            lesson.id() == id,
            lesson.info() == (LessonView {
                name: lesson_info@.name,
                direct_prerequisites: lesson_info@.direct_prerequisites,
                status: lesson_info@.status,
                tags: Seq::empty(),
            }),
    {
        Lesson {
            id,
            name: lesson_info.name,
            direct_prerequisites: lesson_info.direct_prerequisites,
            status: lesson_info.status,
        }
    }

    /// The identifier of the lesson.
    pub fn get_id(&self) -> (id: Id)
        ensures
            id == self.id(),
    {
        self.id
    }

    /// What the lesson holds beside its identifier, without tags.
    pub fn to_lesson_info(&self) -> (lesson_info: LessonInfo)
        ensures
            lesson_info@ == self.info(),
    {
        let lesson_info = LessonInfo {
            name: self.name.clone(),
            direct_prerequisites: copy_ids(&self.direct_prerequisites),
            status: self.status,
            tags: Vec::new(),
        };
        assert(lesson_info@.tags =~= Seq::<Seq<char>>::empty());
        lesson_info
    }
}

impl Clone for Lesson {
    fn clone(&self) -> (copy: Lesson)
        ensures
            copy.id() == self.id(),
            copy.info() == self.info(),
    {
        Lesson {
            id: self.id,
            name: self.name.clone(),
            direct_prerequisites: copy_ids(&self.direct_prerequisites),
            status: self.status,
        }
    }
}

/// The readiness of a node: derived, and recomputed when the graph changes.
#[derive(Debug, PartialEq, Eq)]
pub enum NodeStatus {
    /// The lesson needs no work.
    Ready,
    /// Some prerequisites are not `Ready`, whether or not the lesson itself
    /// needs work. The list holds the direct prerequisites that are not `Ready`.
    MissingPrereq(Vec<Id>),
    /// The lesson needs work, and every prerequisite is `Ready`.
    Pending,
}

/// A `NodeStatus` as a mathematical value.
pub enum Readiness {
    Ready,
    MissingPrereq(Seq<Id>),
    Pending,
}

impl View for NodeStatus {
    type V = Readiness;

    open spec fn view(&self) -> Readiness {
        match self {
            NodeStatus::Ready => Readiness::Ready,
            NodeStatus::MissingPrereq(ids) => Readiness::MissingPrereq(ids@),
            NodeStatus::Pending => Readiness::Pending,
        }
    }
}

/// A lesson together with its readiness.
#[derive(Debug, PartialEq, Eq)]
pub struct GraphNode {
    pub lesson: LessonInfo,
    pub status: NodeStatus,
}

/// A `GraphNode` as a mathematical value.
pub struct NodeView {
    pub lesson: LessonView,
    pub status: Readiness,
}

impl View for GraphNode {
    type V = NodeView;

    open spec fn view(&self) -> NodeView {
        NodeView { lesson: self.lesson@, status: self.status@ }
    }
}

/// The test that keeps what differs from `id`.
pub open spec fn differs_from(id: Id) -> spec_fn(Id) -> bool {
    |other: Id| other != id
}

/// `ids` without the occurrences of `id`.
pub open spec fn without(ids: Seq<Id>, id: Id) -> Seq<Id> {
    ids.filter(differs_from(id))
}

/// `without` keeps what differs from `id`, in order.
pub proof fn lemma_without_push(ids: Seq<Id>, last: Id, id: Id)
    ensures
        without(ids.push(last), id) == if last != id {
            without(ids, id).push(last)
        } else {
            without(ids, id)
        },
{
    reveal(Seq::filter);
    assert(ids.push(last).drop_last() =~= ids);
}

/// What `without` returns holds no `id`, and holds exactly the other elements.
pub proof fn lemma_without_contains(ids: Seq<Id>, id: Id)
    ensures
        !without(ids, id).contains(id),
        forall|other: Id|
            other != id ==> (#[trigger] without(ids, id).contains(other) <==> ids.contains(other)),
{
    let keep = differs_from(id);
    let kept = without(ids, id);
    assert forall|other: Id| #[trigger] kept.contains(other) implies other != id && ids.contains(
        other,
    ) by {
        let j = choose|j: int| 0 <= j < kept.len() && kept[j] == other;
        ids.lemma_filter_pred(keep, j);
        ids.lemma_filter_contains_rev(keep, other);
    }
    assert forall|other: Id| other != id && ids.contains(other) implies #[trigger] kept.contains(
        other,
    ) by {
        let i = choose|i: int| 0 <= i < ids.len() && ids[i] == other;
        ids.lemma_filter_contains(keep, i);
    }
}

/// A list that does not hold `id` is left as it is.
pub proof fn lemma_without_absent(ids: Seq<Id>, id: Id)
    requires
        !ids.contains(id),
    ensures
        without(ids, id) == ids,
    decreases ids.len(),
{
    reveal(Seq::filter);
    if ids.len() > 0 {
        let front = ids.drop_last();
        assert forall|other: Id| front.contains(other) implies ids.contains(other) by {
            let k = choose|k: int| 0 <= k < front.len() && front[k] == other;
            assert(ids[k] == other);
        }
        lemma_without_absent(front, id);
        assert(ids =~= front.push(ids.last()));
        assert(ids[ids.len() - 1] == ids.last());
        lemma_without_push(front, ids.last(), id);
    } else {
        assert(without(ids, id) =~= ids);
    }
}

/// The lesson without `id` among its direct prerequisites.
pub open spec fn stripped(lesson: LessonView, id: Id) -> LessonView {
    LessonView {
        name: lesson.name,
        direct_prerequisites: without(lesson.direct_prerequisites, id),
        status: lesson.status,
        tags: lesson.tags,
    }
}

/// What the first `n + 1` elements of a list hold: what the first `n` hold,
/// and the element that follows them.
pub proof fn lemma_prefix_contains(ids: Seq<Id>, n: int)
    requires
        0 <= n < ids.len(),
    ensures
        forall|id: Id|
            #[trigger] ids.subrange(0, n + 1).contains(id) <==> ids.subrange(0, n).contains(id)
                || id == ids[n],
{
    let short = ids.subrange(0, n);
    let long = ids.subrange(0, n + 1);
    assert forall|id: Id| #[trigger] long.contains(id) implies short.contains(id) || id
        == ids[n] by {
        let k = choose|k: int| 0 <= k < long.len() && long[k] == id;
        if k < n {
            assert(short[k] == id);
        }
    }
    assert forall|id: Id| short.contains(id) || id == ids[n] implies #[trigger] long.contains(
        id,
    ) by {
        if short.contains(id) {
            let k = choose|k: int| 0 <= k < short.len() && short[k] == id;
            assert(long[k] == id);
        } else {
            assert(long[n] == id);
        }
    }
}

/// What a list holds after a push: what it held, and the new element.
pub proof fn lemma_push_contains(ids: Seq<Id>, last: Id)
    ensures
        forall|id: Id| #[trigger] ids.push(last).contains(id) <==> ids.contains(id) || id == last,
{
    let long = ids.push(last);
    assert(long.subrange(0, ids.len() as int) =~= ids);
    assert(long.subrange(0, ids.len() as int + 1) =~= long);
    lemma_prefix_contains(long, ids.len() as int);
}

/// A copy of `ids`.
pub fn copy_ids(ids: &Vec<Id>) -> (copy: Vec<Id>)
    ensures
        copy@ == ids@,
{
    let mut copy: Vec<Id> = Vec::new();
    let mut i: usize = 0;
    while i < ids.len()
        invariant
            i <= ids.len(),
            copy@ == ids@.subrange(0, i as int),
        decreases ids.len() - i,
    {
        copy.push(ids[i]);
        i += 1;
        assert(ids@.subrange(0, i as int) =~= ids@.subrange(0, i - 1).push(ids@[i - 1]));
    }
    assert(ids@.subrange(0, ids.len() as int) =~= ids@);
    copy
}

/// A copy of `ids` without the occurrences of `id`.
pub fn ids_without(ids: &Vec<Id>, id: Id) -> (kept: Vec<Id>)
    ensures
        kept@ == without(ids@, id),
{
    let mut kept: Vec<Id> = Vec::new();
    let mut i: usize = 0;
    proof {
        reveal(Seq::filter);
    }
    while i < ids.len()
        invariant
            i <= ids.len(),
            kept@ == without(ids@.subrange(0, i as int), id),
        decreases ids.len() - i,
    {
        let other: Id = ids[i];
        proof {
            lemma_without_push(ids@.subrange(0, i as int), other, id);
            assert(ids@.subrange(0, i + 1) =~= ids@.subrange(0, i as int).push(other));
        }
        if other != id {
            kept.push(other);
        }
        i += 1;
    }
    assert(ids@.subrange(0, ids.len() as int) =~= ids@);
    kept
}

/// Whether two lists of identifiers are the same list.
pub fn same_ids(left: &Vec<Id>, right: &Vec<Id>) -> (same: bool)
    ensures
        same == (left@ == right@),
{
    if left.len() != right.len() {
        return false;
    }
    let mut i: usize = 0;
    while i < left.len()
        invariant
            i <= left.len(),
            left.len() == right.len(),
            forall|j: int| 0 <= j < i ==> left@[j] == right@[j],
        decreases left.len() - i,
    {
        if left[i] != right[i] {
            return false;
        }
        i += 1;
    }
    assert(left@ =~= right@);
    true
}

/// A copy of `tags`.
fn copy_tags(tags: &Vec<String>) -> (copy: Vec<String>)
    ensures
        copy@.map_values(|tag: String| tag@) == tags@.map_values(|tag: String| tag@),
{
    let mut copy: Vec<String> = Vec::new();
    let mut i: usize = 0;
    while i < tags.len()
        invariant
            i <= tags.len(),
            copy@ == tags@.subrange(0, i as int),
        decreases tags.len() - i,
    {
        copy.push(tags[i].clone());
        i += 1;
        assert(tags@.subrange(0, i as int) =~= tags@.subrange(0, i - 1).push(tags@[i - 1]));
    }
    assert(tags@.subrange(0, tags.len() as int) =~= tags@);
    copy
}

impl Clone for LessonInfo {
    fn clone(&self) -> (copy: LessonInfo)
        ensures
            copy@ == self@,
    {
        LessonInfo {
            name: self.name.clone(),
            direct_prerequisites: copy_ids(&self.direct_prerequisites),
            status: self.status,
            tags: copy_tags(&self.tags),
        }
    }
}

impl Default for LessonInfo {
    fn default() -> (lesson: LessonInfo)
        ensures
            lesson@.name == Seq::<char>::empty(),
            lesson@.direct_prerequisites == Seq::<Id>::empty(),
            lesson@.status == LessonStatus::NotPracticed,
            lesson@.tags == Seq::<Seq<char>>::empty(),
    {
        let lesson = LessonInfo {
            name: String::new(),
            direct_prerequisites: Vec::new(),
            status: LessonStatus::NotPracticed,
            tags: Vec::new(),
        };
        assert(lesson@.tags =~= Seq::<Seq<char>>::empty());
        lesson
    }
}

impl NodeStatus {
    /// Whether two statuses are the same readiness.
    pub fn same_as(&self, other: &NodeStatus) -> (same: bool)
        ensures
            same == (self@ == other@),
    {
        match (self, other) {
            (NodeStatus::Ready, NodeStatus::Ready) => true,
            (NodeStatus::Pending, NodeStatus::Pending) => true,
            (NodeStatus::MissingPrereq(left), NodeStatus::MissingPrereq(right)) => same_ids(
                left,
                right,
            ),
            _ => false,
        }
    }

    /// Whether the status is `Ready`.
    pub fn is_ready(&self) -> (ready: bool)
        ensures
            ready == (self@ is Ready),
    {
        match self {
            NodeStatus::Ready => true,
            _ => false,
        }
    }
}

impl Clone for NodeStatus {
    fn clone(&self) -> (copy: NodeStatus)
        ensures
            copy@ == self@,
    {
        match self {
            NodeStatus::Ready => NodeStatus::Ready,
            NodeStatus::MissingPrereq(ids) => NodeStatus::MissingPrereq(copy_ids(ids)),
            NodeStatus::Pending => NodeStatus::Pending,
        }
    }
}

impl Clone for GraphNode {
    fn clone(&self) -> (copy: GraphNode)
        ensures
            copy@ == self@,
    {
        GraphNode { lesson: self.lesson.clone(), status: self.status.clone() }
    }
}

} // verus!
