use buisson::app::{App, AppState, KeyError};
use buisson::components::event::{KeyCode, KeyEvent, KeyEventKind};
use buisson::components::fuzzyfinder::FuzzyFinderState;
use buisson::components::lesson_edit_form::LessonEditFormState;
use buisson::components::study_editor::StudyEditorState;
use buisson::graph::Graph;
use buisson::lesson::{Id, LessonInfo, NodeStatus};
use buisson::schedule::{Date, LessonStatus};
use buisson::storage::IOBackend;
use std::cell::{Cell, RefCell};
use std::collections::HashMap;

struct MemoryBackend {
    lessons: RefCell<HashMap<Id, LessonInfo>>,
    refusing: Cell<bool>,
}

impl IOBackend for &MemoryBackend {
    type Error = String;

    fn query_lessons(&self) -> Result<HashMap<Id, LessonInfo>, Self::Error> {
        Ok(self.lessons.borrow().clone())
    }

    fn add_new_lesson(&self, id: Id, lesson: &LessonInfo) -> Result<(), Self::Error> {
        if self.refusing.get() {
            return Err(String::from("no insert"));
        }
        self.lessons.borrow_mut().insert(id, lesson.clone());
        Ok(())
    }

    fn update_existing_lesson(&self, id: Id, lesson: &LessonInfo) -> Result<(), Self::Error> {
        if self.refusing.get() {
            return Err(String::from("no update"));
        }
        self.lessons.borrow_mut().insert(id, lesson.clone());
        Ok(())
    }

    fn remove_lesson(&self, id: Id) -> Result<(), Self::Error> {
        if self.refusing.get() {
            return Err(String::from("no remove"));
        }
        self.lessons.borrow_mut().remove(&id);
        Ok(())
    }
}

fn today() -> Date {
    Date::from_days(739_000).unwrap()
}

fn lesson(name: &str, direct_prerequisites: Vec<Id>, status: LessonStatus) -> LessonInfo {
    LessonInfo { name: String::from(name), direct_prerequisites, status, tags: vec![] }
}

fn fixture() -> MemoryBackend {
    let lessons: Vec<(Id, LessonInfo)> = vec![
        (0, lesson("Test 0", vec![1], LessonStatus::NotPracticed)),
        (1, lesson("Test 1", vec![], LessonStatus::GoodEnough)),
        (2, lesson("Test 2", vec![1, 0, 3], LessonStatus::GoodEnough)),
        (3, lesson("Test 3", vec![0], LessonStatus::NotPracticed)),
        (4, lesson("Test 4", vec![2], LessonStatus::NotPracticed)),
    ];
    MemoryBackend { lessons: RefCell::new(lessons.into_iter().collect()), refusing: Cell::new(false) }
}

fn app(backend: &MemoryBackend) -> App<&MemoryBackend> {
    App::new(Graph::get_from_database(backend, today()).unwrap(), rand::thread_rng())
}

fn press(code: KeyCode) -> KeyEvent {
    KeyEvent::press(code)
}

fn letter(c: char) -> KeyEvent {
    press(KeyCode::Char(c))
}

fn type_text(app: &mut App<&MemoryBackend>, text: &str) {
    for c in text.chars() {
        app.handle_key(&letter(c)).unwrap();
    }
}

/// Puts the cursor of the list on screen on the lesson `id`.
fn point_at(app: &mut App<&MemoryBackend>, id: Id) {
    let index = app.main_list().ids().iter().position(|listed| *listed == id);
    assert!(index.is_some());
    app.select_index(index);
    assert_eq!(app.main_list().currently_selected_id(), Some(id));
}

#[test]
fn the_program_opens_on_every_lesson() {
    let backend = fixture();
    let app = app(&backend);
    assert!(matches!(app.state(), AppState::BrowsingLessons));
    assert!(!app.is_quitting());
    let mut ids = app.main_list().ids().to_vec();
    ids.sort();
    assert_eq!(ids, vec![0, 1, 2, 3, 4]);
    assert_eq!(app.main_list().selected(), Some(0));
    assert_eq!(app.lessons().num_nodes(), 5);
}

#[test]
fn q_quits_and_nothing_follows() {
    let backend = fixture();
    let mut app = app(&backend);
    app.handle_key(&letter('q')).unwrap();
    assert!(app.is_quitting());
    app.handle_key(&letter('a')).unwrap();
    app.handle_key(&letter('d')).unwrap();
    assert!(app.is_quitting());
    assert_eq!(app.lessons().num_nodes(), 5);
}

#[test]
fn only_key_presses_count() {
    let backend = fixture();
    let mut app = app(&backend);
    app.handle_key(&KeyEvent { code: KeyCode::Char('q'), alt: false, kind: KeyEventKind::Release })
        .unwrap();
    app.handle_key(&KeyEvent { code: KeyCode::Char('a'), alt: false, kind: KeyEventKind::Repeat })
        .unwrap();
    assert!(matches!(app.state(), AppState::BrowsingLessons));
}

#[test]
fn the_list_on_screen_follows_the_keys() {
    let backend = fixture();
    let mut app = app(&backend);
    app.handle_key(&letter('j')).unwrap();
    app.handle_key(&letter('j')).unwrap();
    assert_eq!(app.main_list().selected(), Some(2));
    app.handle_key(&letter('k')).unwrap();
    assert_eq!(app.main_list().selected(), Some(1));
    app.handle_key(&press(KeyCode::Enter)).unwrap();
    app.handle_key(&letter('x')).unwrap();
    assert_eq!(app.main_list().selected(), Some(1));
    assert!(matches!(app.state(), AppState::BrowsingLessons));
}

#[test]
fn a_writes_a_new_lesson() {
    let backend = fixture();
    let mut app = app(&backend);
    app.handle_key(&letter('a')).unwrap();
    match app.state() {
        AppState::AddingNewLesson(form) => {
            assert!(matches!(form.state(), LessonEditFormState::EditingName));
            assert_eq!(form.name_input().text(), "");
            assert_eq!(form.prerequisites().ids(), &[] as &[Id]);
        }
        _ => panic!("a form is open"),
    }
    type_text(&mut app, "Test 5");
    app.handle_key(&press(KeyCode::Tab)).unwrap();
    app.handle_key(&letter('a')).unwrap();
    type_text(&mut app, "Test 2");
    app.handle_key(&press(KeyCode::Enter)).unwrap();
    app.handle_key(&press(KeyCode::Enter)).unwrap();
    app.handle_key(&press(KeyCode::Tab)).unwrap();
    app.handle_key(&press(KeyCode::Enter)).unwrap();

    assert!(matches!(app.state(), AppState::BrowsingLessons));
    assert_eq!(app.lessons().num_nodes(), 6);
    assert_eq!(app.lessons().get(5).lesson, lesson("Test 5", vec![2], LessonStatus::NotPracticed));
    assert_eq!(app.lessons().get(5).status, NodeStatus::Pending);
    assert_eq!(app.main_list().ids().last(), Some(&5));
    assert_eq!(backend.lessons.borrow().get(&5).unwrap().name, "Test 5");
}

#[test]
fn a_form_left_with_esc_creates_nothing() {
    let backend = fixture();
    let mut app = app(&backend);
    app.handle_key(&letter('a')).unwrap();
    type_text(&mut app, "Nothing");
    app.handle_key(&press(KeyCode::Esc)).unwrap();
    assert!(matches!(app.state(), AppState::BrowsingLessons));
    assert_eq!(app.lessons().num_nodes(), 5);
    assert_eq!(app.main_list().ids().len(), 5);
}

#[test]
fn a_creation_that_the_store_refuses_keeps_the_form_open() {
    let backend = fixture();
    let mut app = app(&backend);
    app.handle_key(&letter('a')).unwrap();
    type_text(&mut app, "Refused");
    app.handle_key(&press(KeyCode::Tab)).unwrap();
    app.handle_key(&press(KeyCode::Tab)).unwrap();
    backend.refusing.set(true);
    match app.handle_key(&press(KeyCode::Enter)) {
        Err(KeyError::Storage(error)) => assert_eq!(error, "no insert"),
        _ => panic!("the store refused"),
    }
    assert!(matches!(app.state(), AppState::AddingNewLesson(_)));
    assert_eq!(app.lessons().num_nodes(), 5);
    assert_eq!(app.main_list().ids().len(), 5);
    backend.refusing.set(false);
    app.handle_key(&press(KeyCode::Enter)).unwrap();
    assert!(matches!(app.state(), AppState::BrowsingLessons));
    assert_eq!(app.lessons().get(5).lesson.name, "Refused");
}

#[test]
fn e_rewrites_the_selected_lesson() {
    let backend = fixture();
    let mut app = app(&backend);
    point_at(&mut app, 3);
    app.handle_key(&letter('e')).unwrap();
    match app.state() {
        AppState::EditingLesson(id, form) => {
            assert_eq!(*id, 3);
            assert_eq!(form.name_input().text(), "Test 3");
            assert_eq!(form.prerequisites().ids(), &[0]);
        }
        _ => panic!("a form is open"),
    }
    app.handle_key(&letter('!')).unwrap();
    app.handle_key(&press(KeyCode::Tab)).unwrap();
    app.handle_key(&letter('a')).unwrap();
    match app.state() {
        AppState::EditingLesson(_, form) => match form.state() {
            LessonEditFormState::AddingPrereq(finder) => {
                let mut offered = finder.match_list().ids().to_vec();
                offered.sort();
                assert_eq!(offered, vec![0, 1]);
            }
            _ => panic!("a finder is open"),
        },
        _ => panic!("a form is open"),
    }
    app.handle_key(&press(KeyCode::Esc)).unwrap();
    app.handle_key(&press(KeyCode::Esc)).unwrap();
    app.handle_key(&letter('d')).unwrap();
    app.handle_key(&press(KeyCode::Tab)).unwrap();
    app.handle_key(&press(KeyCode::Enter)).unwrap();

    assert!(matches!(app.state(), AppState::BrowsingLessons));
    assert_eq!(app.lessons().get(3).lesson, lesson("Test 3!", vec![], LessonStatus::NotPracticed));
    assert_eq!(app.lessons().get(3).status, NodeStatus::Pending);
    assert_eq!(app.lessons().get_children(&0).to_vec(), vec![2]);
}

#[test]
fn l_studies_the_selected_lesson() {
    let backend = fixture();
    let mut app = app(&backend);
    point_at(&mut app, 0);
    app.handle_key(&letter('l')).unwrap();
    match app.state() {
        AppState::Studying(id, editor) => {
            assert_eq!(*id, 0);
            assert_eq!(editor.state(), StudyEditorState::Practiced);
            assert_eq!(editor.level(), 0);
        }
        _ => panic!("a study editor is open"),
    }
    app.handle_key(&letter('j')).unwrap();
    app.handle_key(&press(KeyCode::Enter)).unwrap();
    assert!(matches!(app.state(), AppState::BrowsingLessons));
    assert_eq!(
        app.lessons().get(0).lesson,
        lesson("Test 0", vec![1], LessonStatus::Practiced { level: 1, date: today() })
    );
    assert_eq!(app.lessons().get(0).status, NodeStatus::Ready);
    assert_eq!(app.lessons().get(3).status, NodeStatus::Pending);

    app.handle_key(&letter('l')).unwrap();
    match app.state() {
        AppState::Studying(_, editor) => assert_eq!(editor.level(), 2),
        _ => panic!("a study editor is open"),
    }
    app.handle_key(&press(KeyCode::Esc)).unwrap();
    assert!(matches!(app.state(), AppState::BrowsingLessons));
    app.handle_key(&letter('l')).unwrap();
    app.handle_key(&letter('l')).unwrap();
    app.handle_key(&press(KeyCode::Enter)).unwrap();
    assert_eq!(app.lessons().get(0).lesson.status, LessonStatus::GoodEnough);
}

#[test]
fn d_asks_before_it_deletes() {
    let backend = fixture();
    let mut app = app(&backend);
    point_at(&mut app, 0);
    app.handle_key(&letter('d')).unwrap();
    assert!(matches!(app.state(), AppState::ConfirmingDeletion(0)));
    app.handle_key(&letter('y')).unwrap();
    app.handle_key(&press(KeyCode::Enter)).unwrap();
    assert!(matches!(app.state(), AppState::ConfirmingDeletion(0)));
    app.handle_key(&letter('n')).unwrap();
    assert!(matches!(app.state(), AppState::BrowsingLessons));
    assert_eq!(app.lessons().num_nodes(), 5);

    app.handle_key(&letter('d')).unwrap();
    app.handle_key(&press(KeyCode::Esc)).unwrap();
    assert!(matches!(app.state(), AppState::BrowsingLessons));

    app.handle_key(&letter('d')).unwrap();
    backend.refusing.set(true);
    assert!(matches!(app.handle_key(&letter('Y')), Err(KeyError::Storage(_))));
    assert!(matches!(app.state(), AppState::ConfirmingDeletion(0)));
    assert_eq!(app.lessons().num_nodes(), 5);
    assert_eq!(app.main_list().ids().len(), 5);
    backend.refusing.set(false);
    app.handle_key(&letter('Y')).unwrap();
    assert!(matches!(app.state(), AppState::BrowsingLessons));
    assert_eq!(app.lessons().num_nodes(), 4);
    assert!(!app.lessons().contains(0));
    assert!(!app.main_list().ids().contains(&0));
    assert_eq!(app.lessons().get(3).status, NodeStatus::Pending);
    assert!(!backend.lessons.borrow().contains_key(&0));
}

#[test]
fn d_without_a_selected_lesson_asks_nothing() {
    let backend = fixture();
    let mut app = app(&backend);
    app.select_index(None);
    app.handle_key(&letter('d')).unwrap();
    app.handle_key(&letter('e')).unwrap();
    app.handle_key(&letter('l')).unwrap();
    assert!(matches!(app.state(), AppState::BrowsingLessons));
    app.select_index(Some(17));
    app.handle_key(&letter('d')).unwrap();
    assert!(matches!(app.state(), AppState::BrowsingLessons));
}

#[test]
fn slash_searches_a_lesson() {
    let backend = fixture();
    let mut app = app(&backend);
    app.handle_key(&letter('/')).unwrap();
    match app.state() {
        AppState::Searching(finder) => {
            assert_eq!(finder.state(), FuzzyFinderState::TypingSearch);
            assert_eq!(finder.match_list().ids().len(), 5);
        }
        _ => panic!("a finder is open"),
    }
    type_text(&mut app, "st 3");
    match app.state() {
        AppState::Searching(finder) => assert_eq!(finder.match_list().ids(), &[3]),
        _ => panic!("a finder is open"),
    }
    app.handle_key(&press(KeyCode::Enter)).unwrap();
    app.select_finder_index(Some(0));
    app.handle_key(&press(KeyCode::Enter)).unwrap();
    assert!(matches!(app.state(), AppState::BrowsingLessons));
    assert_eq!(app.main_list().currently_selected_id(), Some(3));

    app.handle_key(&letter('/')).unwrap();
    app.handle_key(&press(KeyCode::Esc)).unwrap();
    app.handle_key(&press(KeyCode::Esc)).unwrap();
    assert!(matches!(app.state(), AppState::BrowsingLessons));
    assert_eq!(app.main_list().currently_selected_id(), Some(3));
}

#[test]
fn r_selects_a_pending_lesson() {
    let backend = fixture();
    let mut app = app(&backend);
    for _ in 0..50 {
        app.handle_key(&letter('r')).unwrap();
        let id = app.main_list().currently_selected_id().unwrap();
        assert_eq!(app.lessons().get(id).status, NodeStatus::Pending);
    }
}

#[test]
fn the_cursors_are_put_where_drawing_leaves_them() {
    let backend = fixture();
    let mut app = app(&backend);
    app.select_form_index(Some(3));
    app.select_finder_index(Some(3));
    assert_eq!(app.main_list().selected(), Some(0));
    app.handle_key(&letter('a')).unwrap();
    app.select_form_index(Some(3));
    match app.state() {
        AppState::AddingNewLesson(form) => assert_eq!(form.prerequisites().selected(), Some(3)),
        _ => panic!("a form is open"),
    }
    app.handle_key(&press(KeyCode::Tab)).unwrap();
    app.handle_key(&letter('a')).unwrap();
    app.select_finder_index(Some(2));
    match app.state() {
        AppState::AddingNewLesson(form) => match form.state() {
            LessonEditFormState::AddingPrereq(finder) => {
                assert_eq!(finder.match_list().selected(), Some(2))
            }
            _ => panic!("a finder is open"),
        },
        _ => panic!("a form is open"),
    }
}

#[test]
fn a_lesson_for_which_no_identifier_is_left_is_refused() {
    let lessons: Vec<(Id, LessonInfo)> =
        vec![(u64::MAX - 1, lesson("last", vec![], LessonStatus::NotPracticed))];
    let backend =
        MemoryBackend { lessons: RefCell::new(lessons.into_iter().collect()), refusing: Cell::new(false) };
    let mut app = app(&backend);
    app.handle_key(&letter('a')).unwrap();
    type_text(&mut app, "one too many");
    app.handle_key(&press(KeyCode::Tab)).unwrap();
    app.handle_key(&press(KeyCode::Tab)).unwrap();
    assert!(matches!(app.handle_key(&press(KeyCode::Enter)), Err(KeyError::IdsExhausted)));
    assert!(matches!(app.state(), AppState::AddingNewLesson(_)));
    assert_eq!(app.lessons().num_nodes(), 1);
    assert_eq!(backend.lessons.borrow().len(), 1);
}

#[test]
fn rewriting_and_studying_leave_the_tags_in_the_graph_and_in_the_store() {
    let mut tagged = lesson("Tagged", vec![], LessonStatus::NotPracticed);
    tagged.tags = vec![String::from("algebra"), String::from("first year")];
    let lessons: Vec<(Id, LessonInfo)> = vec![(0, tagged.clone())];
    let backend =
        MemoryBackend { lessons: RefCell::new(lessons.into_iter().collect()), refusing: Cell::new(false) };
    let mut app = app(&backend);
    point_at(&mut app, 0);

    app.handle_key(&letter('e')).unwrap();
    app.handle_key(&letter('!')).unwrap();
    app.handle_key(&press(KeyCode::Tab)).unwrap();
    app.handle_key(&press(KeyCode::Tab)).unwrap();
    app.handle_key(&press(KeyCode::Enter)).unwrap();
    assert!(matches!(app.state(), AppState::BrowsingLessons));
    tagged.name = String::from("Tagged!");
    assert_eq!(app.lessons().get(0).lesson, tagged);
    assert_eq!(backend.lessons.borrow().get(&0), Some(&tagged));

    app.handle_key(&letter('l')).unwrap();
    app.handle_key(&press(KeyCode::Enter)).unwrap();
    assert!(matches!(app.state(), AppState::BrowsingLessons));
    tagged.status = LessonStatus::Practiced { level: 0, date: today() };
    assert_eq!(app.lessons().get(0).lesson, tagged);
    assert_eq!(backend.lessons.borrow().get(&0), Some(&tagged));
}
