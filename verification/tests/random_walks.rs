use buisson::graph::Graph;
use buisson::lesson::{Id, LessonInfo, NodeStatus};
use buisson::schedule::{Date, LessonStatus};
use buisson::storage::IOBackend;
use rand::rngs::StdRng;
use rand::{Rng, SeedableRng};
use std::cell::RefCell;
use std::collections::HashMap;

struct MemoryBackend {
    lessons: RefCell<HashMap<Id, LessonInfo>>,
}

impl IOBackend for &MemoryBackend {
    type Error = ();

    fn query_lessons(&self) -> Result<HashMap<Id, LessonInfo>, Self::Error> {
        Ok(self.lessons.borrow().clone())
    }

    fn add_new_lesson(&self, id: Id, lesson: &LessonInfo) -> Result<(), Self::Error> {
        assert!(self.lessons.borrow_mut().insert(id, lesson.clone()).is_none());
        Ok(())
    }

    fn update_existing_lesson(&self, id: Id, lesson: &LessonInfo) -> Result<(), Self::Error> {
        assert!(self.lessons.borrow_mut().insert(id, lesson.clone()).is_some());
        Ok(())
    }

    fn remove_lesson(&self, id: Id) -> Result<(), Self::Error> {
        assert!(self.lessons.borrow_mut().remove(&id).is_some());
        Ok(())
    }
}

fn today() -> Date {
    Date::from_days(739_000).unwrap()
}

fn random_status(rng: &mut StdRng) -> LessonStatus {
    match rng.gen_range(0..4) {
        0 => LessonStatus::NotPracticed,
        1 => LessonStatus::GoodEnough,
        _ => LessonStatus::Practiced {
            level: rng.gen_range(0..4),
            date: Date::from_days(739_000 - rng.gen_range(0..20)).unwrap(),
        },
    }
}

/// Some of the candidates, a few of them twice.
fn random_subset(rng: &mut StdRng, candidates: &[Id]) -> Vec<Id> {
    let mut chosen: Vec<Id> = Vec::new();
    for candidate in candidates {
        if rng.gen_range(0..3) == 0 {
            chosen.push(*candidate);
            if rng.gen_range(0..5) == 0 {
                chosen.push(*candidate);
            }
        }
    }
    chosen
}

/// The readiness that the rule gives the node `id`, from the readiness that
/// its prerequisites have.
fn expected<T: IOBackend>(graph: &Graph<T>, id: Id) -> NodeStatus {
    let node = graph.get(id);
    let missing: Vec<Id> = node
        .lesson
        .direct_prerequisites
        .iter()
        .copied()
        .filter(|prerequisite| graph.get(*prerequisite).status != NodeStatus::Ready)
        .collect();
    if node.lesson.status == LessonStatus::GoodEnough {
        NodeStatus::Ready
    } else if !missing.is_empty() {
        NodeStatus::MissingPrereq(missing)
    } else if node.lesson.status.needs_work(graph.today()) {
        NodeStatus::Pending
    } else {
        NodeStatus::Ready
    }
}

fn assert_consistent(graph: &Graph<&MemoryBackend>, backend: &MemoryBackend) {
    let ids = graph.get_ids();
    assert_eq!(ids.len(), graph.num_nodes());
    let mut ready: usize = 0;
    for id in &ids {
        assert_eq!(graph.get(*id).status, expected(graph, *id));
        if graph.get(*id).status == NodeStatus::Ready {
            ready += 1;
        }
        assert!(*id < graph.next_id());
        for prerequisite in &graph.get(*id).lesson.direct_prerequisites {
            assert!(graph.contains(*prerequisite));
            assert!(graph.get_children(prerequisite).contains(id));
            assert!(graph.depends_on(*id, *prerequisite));
            assert!(!graph.depends_on(*prerequisite, *id));
        }
        for child in graph.get_children(id) {
            let listed = graph.get_children(id).iter().filter(|other| *other == child).count();
            let named = graph
                .get(*child)
                .lesson
                .direct_prerequisites
                .iter()
                .filter(|prerequisite| *prerequisite == id)
                .count();
            assert_eq!(listed, named);
        }
    }
    assert_eq!(graph.num_ok_nodes(), ready);

    let stored = backend.lessons.borrow();
    assert_eq!(stored.len(), ids.len());
    for id in &ids {
        assert_eq!(stored.get(id), Some(&graph.get(*id).lesson));
    }
    drop(stored);

    let spare = MemoryBackend { lessons: RefCell::new(HashMap::new()) };
    let rebuilt = Graph::from_lessons(graph.lesson_infos(), &spare, graph.today()).unwrap();
    assert_eq!(graph.lessons(), rebuilt.lessons());
}

#[test]
fn random_changes_keep_the_graph_exact() {
    let mut rng = StdRng::seed_from_u64(20_240_220);
    for _ in 0..20 {
        let backend = MemoryBackend { lessons: RefCell::new(HashMap::new()) };
        let mut graph = Graph::get_from_database(&backend, today()).unwrap();
        for step in 0..60 {
            let ids = graph.get_ids();
            let choice: u32 = if ids.is_empty() { 0 } else { rng.gen_range(0..4) };
            match choice {
                0 | 1 => {
                    let lesson = LessonInfo {
                        name: format!("lesson {}", step),
                        direct_prerequisites: random_subset(&mut rng, &ids),
                        status: random_status(&mut rng),
                        tags: vec![format!("made at {}", step)],
                    };
                    assert!(graph.can_create(&lesson));
                    graph.create_new_node(lesson).unwrap();
                }
                2 => {
                    let id = ids[rng.gen_range(0..ids.len())];
                    let candidates: Vec<Id> = graph.independent_of(id).keys().copied().collect();
                    let lesson = LessonInfo {
                        name: format!("lesson {} again", step),
                        direct_prerequisites: random_subset(&mut rng, &candidates),
                        status: random_status(&mut rng),
                        tags: vec![format!("changed at {}", step), String::from("again")],
                    };
                    assert!(graph.can_edit(id, &lesson));
                    graph.edit_node(id, lesson).unwrap();
                }
                _ => {
                    let id = ids[rng.gen_range(0..ids.len())];
                    graph.delete_node(id).unwrap();
                    assert!(!graph.contains(id));
                }
            }
            assert_consistent(&graph, &backend);
        }
    }
}

#[test]
fn what_depends_on_a_lesson_cannot_be_required_by_it() {
    let mut rng = StdRng::seed_from_u64(7);
    let backend = MemoryBackend { lessons: RefCell::new(HashMap::new()) };
    let mut graph = Graph::get_from_database(&backend, today()).unwrap();
    for step in 0..30 {
        let ids = graph.get_ids();
        let lesson = LessonInfo {
            name: format!("lesson {}", step),
            direct_prerequisites: random_subset(&mut rng, &ids),
            status: LessonStatus::NotPracticed,
            tags: vec![],
        };
        graph.create_new_node(lesson).unwrap();
    }
    for id in graph.get_ids() {
        let allowed = graph.independent_of(id);
        for other in graph.get_ids() {
            let lesson = LessonInfo {
                name: String::from("probe"),
                direct_prerequisites: vec![other],
                status: LessonStatus::NotPracticed,
                tags: vec![],
            };
            assert_eq!(allowed.contains_key(&other), !graph.depends_on(other, id));
            assert_eq!(graph.can_edit(id, &lesson), !graph.depends_on(other, id));
        }
    }
}
