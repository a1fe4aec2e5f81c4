use buisson::components::event::{KeyCode, KeyEvent, KeyEventKind};
use buisson::components::fuzzyfinder::{FuzzyFinder, FuzzyFinderAction, FuzzyFinderState};
use buisson::components::lesson_edit_form::{LessonEditForm, LessonEditFormAction, LessonEditFormState};
use buisson::components::node_list::NodeList;
use buisson::components::study_editor::{StudyEditor, StudyEditorAction, StudyEditorState};
use buisson::components::textinput::TextInput;
use buisson::lesson::{Id, LessonInfo};
use buisson::schedule::{Date, LessonStatus, StudyChoice};
use std::collections::HashMap;

fn press(code: KeyCode) -> KeyEvent {
    KeyEvent::press(code)
}

fn letter(c: char) -> KeyEvent {
    press(KeyCode::Char(c))
}

fn alt(c: char) -> KeyEvent {
    KeyEvent { code: KeyCode::Char(c), alt: true, kind: KeyEventKind::Press }
}

fn lesson(name: &str, direct_prerequisites: Vec<Id>) -> LessonInfo {
    LessonInfo {
        name: String::from(name),
        direct_prerequisites,
        status: LessonStatus::NotPracticed,
        tags: vec![],
    }
}

fn type_text(input: &mut TextInput, text: &str) {
    for c in text.chars() {
        input.handle_key(&letter(c));
    }
}

#[test]
fn a_text_input_holds_what_it_was_given() {
    let input = TextInput::new(String::from("héllo"));
    assert_eq!(input.text(), "héllo");
    assert_eq!(input.text_len(), 5);
    assert_eq!(TextInput::default().text(), "");
    assert_eq!(TextInput::default().text_len(), 0);
}

#[test]
fn a_text_input_takes_characters_and_backspaces() {
    let mut input = TextInput::default();
    type_text(&mut input, "abç");
    assert_eq!(input.text(), "abç");
    assert_eq!(input.text_len(), 3);
    input.handle_key(&press(KeyCode::Backspace));
    assert_eq!(input.text(), "ab");
    input.handle_key(&press(KeyCode::Enter));
    input.handle_key(&press(KeyCode::Tab));
    input.handle_key(&press(KeyCode::Other));
    assert_eq!(input.text(), "ab");
    input.handle_key(&press(KeyCode::Backspace));
    input.handle_key(&press(KeyCode::Backspace));
    input.handle_key(&press(KeyCode::Backspace));
    assert_eq!(input.text(), "");
}

#[test]
fn a_text_input_counts_only_key_presses() {
    let mut input = TextInput::new(String::from("a"));
    input.handle_key(&KeyEvent { code: KeyCode::Char('b'), alt: false, kind: KeyEventKind::Release });
    input.handle_key(&KeyEvent { code: KeyCode::Char('b'), alt: false, kind: KeyEventKind::Repeat });
    input.handle_key(&KeyEvent { code: KeyCode::Backspace, alt: false, kind: KeyEventKind::Release });
    assert_eq!(input.text(), "a");
    input.handle_key(&alt('b'));
    assert_eq!(input.text(), "ab");
}

#[test]
fn the_length_of_a_text_is_taken_on_sixteen_bits() {
    let input = TextInput::new("x".repeat(65_535));
    assert_eq!(input.text_len(), 65_535);
    let input = TextInput::new("x".repeat(65_536));
    assert_eq!(input.text_len(), 0);
    let input = TextInput::new("x".repeat(65_539));
    assert_eq!(input.text_len(), 3);
}

#[test]
fn a_node_list_opens_on_its_first_lesson() {
    let list = NodeList::new(vec![4, 2, 9]);
    assert_eq!(list.ids(), &[4, 2, 9]);
    assert_eq!(list.selected(), Some(0));
    assert_eq!(list.currently_selected_id(), Some(4));
    let empty = NodeList::new(vec![]);
    assert_eq!(empty.selected(), Some(0));
    assert_eq!(empty.currently_selected_id(), None);
}

#[test]
fn a_node_list_moves_its_cursor() {
    let mut list = NodeList::new(vec![4, 2, 9]);
    list.handle_key(&letter('j'));
    assert_eq!(list.currently_selected_id(), Some(2));
    list.handle_key(&letter('j'));
    assert_eq!(list.currently_selected_id(), Some(9));
    list.handle_key(&letter('j'));
    assert_eq!(list.selected(), Some(3));
    assert_eq!(list.currently_selected_id(), None);
    list.select_index(Some(2));
    assert_eq!(list.selected(), Some(2));
    list.handle_key(&letter('k'));
    assert_eq!(list.currently_selected_id(), Some(2));
    list.handle_key(&letter('k'));
    list.handle_key(&letter('k'));
    assert_eq!(list.selected(), Some(0));
    list.handle_key(&letter('x'));
    list.handle_key(&press(KeyCode::Enter));
    assert_eq!(list.selected(), Some(0));
}

#[test]
fn a_node_list_without_selection_moves_to_an_end() {
    let mut list = NodeList::new(vec![4, 2, 9]);
    list.select_index(None);
    list.handle_key(&letter('j'));
    assert_eq!(list.selected(), Some(0));
    list.select_index(None);
    list.handle_key(&letter('k'));
    assert_eq!(list.selected(), Some(usize::MAX));
    list.handle_key(&letter('j'));
    assert_eq!(list.selected(), Some(usize::MAX));
    assert_eq!(list.currently_selected_id(), None);
    list.select_index(Some(2));
    assert_eq!(list.currently_selected_id(), Some(9));
}

#[test]
fn a_node_list_selects_the_first_occurrence() {
    let mut list = NodeList::new(vec![4, 2, 9, 2]);
    list.select(2);
    assert_eq!(list.selected(), Some(1));
    list.select(9);
    assert_eq!(list.selected(), Some(2));
    list.select(7);
    assert_eq!(list.selected(), None);
    assert_eq!(list.currently_selected_id(), None);
}

#[test]
fn a_node_list_changes_its_lessons() {
    let mut list = NodeList::new(vec![4, 2, 9, 2]);
    list.handle_key(&letter('j'));
    list.remove_node(2);
    assert_eq!(list.ids(), &[4, 9]);
    assert_eq!(list.selected(), Some(1));
    list.push(5);
    assert_eq!(list.ids(), &[4, 9, 5]);
    list.change_values(vec![1]);
    assert_eq!(list.ids(), &[1]);
    assert_eq!(list.selected(), Some(1));
    list.remove_node(8);
    assert_eq!(list.ids(), &[1]);
}

#[test]
fn a_study_editor_opens_on_the_status_of_the_lesson() {
    let editor = StudyEditor::new(LessonStatus::NotPracticed);
    assert_eq!((editor.state(), editor.level()), (StudyEditorState::Practiced, 0));
    let editor = StudyEditor::new(LessonStatus::GoodEnough);
    assert_eq!((editor.state(), editor.level()), (StudyEditorState::GoodEnough, 0));
    let date = Date::from_days(739_000).unwrap();
    let editor = StudyEditor::new(LessonStatus::Practiced { level: 3, date });
    assert_eq!((editor.state(), editor.level()), (StudyEditorState::Practiced, 4));
    let editor = StudyEditor::new(LessonStatus::Practiced { level: u32::MAX, date });
    assert_eq!(editor.level(), u32::MAX);
}

#[test]
fn a_study_editor_moves_between_its_columns() {
    let mut editor = StudyEditor::new(LessonStatus::NotPracticed);
    assert_eq!(editor.handle_key(&letter('l')), StudyEditorAction::Noop);
    assert_eq!(editor.state(), StudyEditorState::GoodEnough);
    editor.handle_key(&press(KeyCode::Tab));
    assert_eq!(editor.state(), StudyEditorState::GoodEnough);
    editor.handle_key(&letter('h'));
    assert_eq!(editor.state(), StudyEditorState::Practiced);
    editor.handle_key(&press(KeyCode::BackTab));
    assert_eq!(editor.state(), StudyEditorState::NotPracticed);
    editor.handle_key(&letter('h'));
    assert_eq!(editor.state(), StudyEditorState::NotPracticed);
    editor.handle_key(&press(KeyCode::Tab));
    assert_eq!(editor.state(), StudyEditorState::Practiced);
}

#[test]
fn a_study_editor_changes_the_level_of_a_practiced_lesson() {
    let mut editor = StudyEditor::new(LessonStatus::NotPracticed);
    editor.handle_key(&letter('k'));
    assert_eq!(editor.level(), 0);
    editor.handle_key(&letter('j'));
    editor.handle_key(&letter('j'));
    assert_eq!(editor.level(), 2);
    editor.handle_key(&letter('k'));
    assert_eq!(editor.level(), 1);
    editor.handle_key(&letter('l'));
    editor.handle_key(&letter('j'));
    editor.handle_key(&letter('k'));
    assert_eq!(editor.level(), 1);
    editor.handle_key(&letter('z'));
    assert_eq!((editor.state(), editor.level()), (StudyEditorState::GoodEnough, 1));
}

#[test]
fn a_study_editor_ends_with_the_choice_or_without() {
    let mut editor = StudyEditor::new(LessonStatus::NotPracticed);
    editor.handle_key(&letter('j'));
    assert_eq!(
        editor.handle_key(&press(KeyCode::Enter)),
        StudyEditorAction::Terminate(Some(StudyChoice::Practiced { level: 1 }))
    );
    assert_eq!(editor.handle_key(&press(KeyCode::Esc)), StudyEditorAction::Terminate(None));
    editor.handle_key(&letter('l'));
    assert_eq!(
        editor.handle_key(&press(KeyCode::Enter)),
        StudyEditorAction::Terminate(Some(StudyChoice::GoodEnough))
    );
    editor.handle_key(&letter('h'));
    editor.handle_key(&letter('h'));
    assert_eq!(
        editor.handle_key(&press(KeyCode::Enter)),
        StudyEditorAction::Terminate(Some(StudyChoice::NotPracticed))
    );
    assert_eq!(editor.to_choice(), StudyChoice::NotPracticed);
}

fn finder() -> FuzzyFinder {
    FuzzyFinder::new(vec![
        (3, lesson("Linear algebra", vec![])),
        (1, lesson("Algebraic geometry", vec![])),
        (8, lesson("Topology", vec![])),
    ])
}

#[test]
fn a_finder_opens_on_every_lesson() {
    let finder = finder();
    assert_eq!(finder.state(), FuzzyFinderState::TypingSearch);
    assert_eq!(finder.search_bar().text(), "");
    assert_eq!(finder.match_list().ids(), &[3, 1, 8]);
    assert_eq!(finder.match_list().selected(), Some(0));
    assert_eq!(finder.perform_search(), vec![3, 1, 8]);
}

#[test]
fn a_finder_searches_as_the_user_types() {
    let mut finder = finder();
    for c in "lgebra".chars() {
        assert_eq!(finder.handle_key(&letter(c)), FuzzyFinderAction::Noop);
    }
    assert_eq!(finder.search_bar().text(), "lgebra");
    assert_eq!(finder.match_list().ids(), &[3, 1]);
    finder.handle_key(&letter('i'));
    assert_eq!(finder.match_list().ids(), &[1]);
    finder.handle_key(&letter('x'));
    assert_eq!(finder.match_list().ids(), &[] as &[Id]);
    finder.handle_key(&press(KeyCode::Backspace));
    finder.handle_key(&press(KeyCode::Backspace));
    assert_eq!(finder.match_list().ids(), &[3, 1]);
    finder.handle_key(&KeyEvent { code: KeyCode::Char('z'), alt: false, kind: KeyEventKind::Release });
    assert_eq!(finder.search_bar().text(), "lgebra");
}

#[test]
fn a_finder_ends_with_the_selected_lesson() {
    let mut finder = finder();
    finder.handle_key(&letter('o'));
    assert_eq!(finder.match_list().ids(), &[1, 8]);
    assert_eq!(finder.handle_key(&press(KeyCode::Enter)), FuzzyFinderAction::Noop);
    assert_eq!(finder.state(), FuzzyFinderState::NavigatingResults);
    finder.handle_key(&letter('j'));
    assert_eq!(finder.handle_key(&press(KeyCode::Enter)), FuzzyFinderAction::Terminate(Some(8)));
    finder.handle_key(&letter('k'));
    assert_eq!(finder.handle_key(&press(KeyCode::Enter)), FuzzyFinderAction::Terminate(Some(1)));
    assert_eq!(finder.handle_key(&press(KeyCode::Esc)), FuzzyFinderAction::Terminate(None));
    finder.handle_key(&letter('j'));
    finder.handle_key(&letter('j'));
    assert_eq!(finder.handle_key(&press(KeyCode::Enter)), FuzzyFinderAction::Terminate(None));
    finder.select_index(Some(1));
    assert_eq!(finder.handle_key(&press(KeyCode::Enter)), FuzzyFinderAction::Terminate(Some(8)));
}

#[test]
fn a_finder_passes_between_typing_and_results() {
    let mut finder = finder();
    finder.handle_key(&press(KeyCode::Esc));
    assert_eq!(finder.state(), FuzzyFinderState::NavigatingResults);
    finder.handle_key(&letter('x'));
    assert_eq!(finder.search_bar().text(), "");
    finder.handle_key(&letter('a'));
    assert_eq!(finder.state(), FuzzyFinderState::TypingSearch);
    finder.handle_key(&letter('a'));
    assert_eq!(finder.search_bar().text(), "a");
    finder.handle_key(&press(KeyCode::Enter));
    finder.handle_key(&letter('i'));
    assert_eq!(finder.state(), FuzzyFinderState::TypingSearch);
    finder.handle_key(&KeyEvent { code: KeyCode::Esc, alt: false, kind: KeyEventKind::Release });
    assert_eq!(finder.state(), FuzzyFinderState::TypingSearch);
}

fn form() -> LessonEditForm {
    let potential: HashMap<Id, LessonInfo> = vec![
        (3, lesson("Linear algebra", vec![])),
        (1, lesson("Algebraic geometry", vec![3])),
        (8, lesson("Topology", vec![])),
    ]
    .into_iter()
    .collect();
    let mut edited = lesson("Manifolds", vec![8]);
    edited.status = LessonStatus::GoodEnough;
    edited.tags = vec![String::from("geometry")];
    LessonEditForm::new(potential, edited)
}

#[test]
fn a_form_opens_on_the_name_of_the_lesson() {
    let form = form();
    assert!(matches!(form.state(), LessonEditFormState::EditingName));
    assert_eq!(form.name_input().text(), "Manifolds");
    assert_eq!(form.prerequisites().ids(), &[8]);
    assert_eq!(
        form.to_lesson_info(),
        LessonInfo {
            name: String::from("Manifolds"),
            direct_prerequisites: vec![8],
            status: LessonStatus::GoodEnough,
            tags: vec![],
        }
    );
}

#[test]
fn a_form_edits_the_name() {
    let mut form = form();
    assert!(matches!(form.handle_key(&press(KeyCode::Backspace)), LessonEditFormAction::Noop));
    form.handle_key(&letter('!'));
    form.handle_key(&letter('j'));
    assert_eq!(form.name_input().text(), "Manifold!j");
    assert!(matches!(form.handle_key(&press(KeyCode::Esc)), LessonEditFormAction::Terminate(None)));
}

#[test]
fn a_form_passes_between_its_parts() {
    let mut form = form();
    form.handle_key(&press(KeyCode::Tab));
    assert!(matches!(form.state(), LessonEditFormState::NavigatingPrereqs));
    form.handle_key(&press(KeyCode::BackTab));
    assert!(matches!(form.state(), LessonEditFormState::EditingName));
    form.handle_key(&press(KeyCode::Enter));
    assert!(matches!(form.state(), LessonEditFormState::NavigatingPrereqs));
    form.handle_key(&alt('k'));
    assert!(matches!(form.state(), LessonEditFormState::EditingName));
    form.handle_key(&alt('j'));
    assert!(matches!(form.state(), LessonEditFormState::NavigatingPrereqs));
    form.handle_key(&alt('j'));
    assert!(matches!(form.state(), LessonEditFormState::Validating));
    form.handle_key(&alt('k'));
    assert!(matches!(form.state(), LessonEditFormState::NavigatingPrereqs));
    form.handle_key(&press(KeyCode::Tab));
    assert!(matches!(form.state(), LessonEditFormState::Validating));
    form.handle_key(&press(KeyCode::BackTab));
    assert!(matches!(form.state(), LessonEditFormState::NavigatingPrereqs));
    form.handle_key(&press(KeyCode::Tab));
    form.handle_key(&letter('x'));
    form.handle_key(&press(KeyCode::Tab));
    assert!(matches!(form.state(), LessonEditFormState::Validating));
    assert!(matches!(form.handle_key(&press(KeyCode::Esc)), LessonEditFormAction::Terminate(None)));
    assert_eq!(form.name_input().text(), "Manifolds");
}

#[test]
fn a_form_adds_and_strikes_prerequisites() {
    let mut form = form();
    form.handle_key(&press(KeyCode::Tab));
    form.handle_key(&letter('a'));
    match form.state() {
        LessonEditFormState::AddingPrereq(finder) => {
            let mut offered = finder.match_list().ids().to_vec();
            offered.sort();
            assert_eq!(offered, vec![1, 3, 8]);
        }
        _ => panic!("a finder is open"),
    }
    for c in "Linear".chars() {
        form.handle_key(&letter(c));
    }
    form.handle_key(&press(KeyCode::Enter));
    assert!(matches!(form.state(), LessonEditFormState::AddingPrereq(_)));
    assert!(matches!(form.handle_key(&press(KeyCode::Enter)), LessonEditFormAction::Noop));
    assert!(matches!(form.state(), LessonEditFormState::NavigatingPrereqs));
    assert_eq!(form.prerequisites().ids(), &[8, 3]);

    form.handle_key(&letter('a'));
    match form.state() {
        LessonEditFormState::AddingPrereq(finder) => {
            let mut offered = finder.match_list().ids().to_vec();
            offered.sort();
            assert_eq!(offered, vec![1, 8]);
        }
        _ => panic!("a finder is open"),
    }
    form.select_finder_index(Some(7));
    match form.state() {
        LessonEditFormState::AddingPrereq(finder) => {
            assert_eq!(finder.match_list().selected(), Some(7));
        }
        _ => panic!("a finder is open"),
    }
    form.handle_key(&press(KeyCode::Esc));
    form.handle_key(&press(KeyCode::Esc));
    assert!(matches!(form.state(), LessonEditFormState::NavigatingPrereqs));
    assert_eq!(form.prerequisites().ids(), &[8, 3]);
    form.select_finder_index(Some(7));
    assert_eq!(form.prerequisites().selected(), Some(0));

    form.handle_key(&letter('j'));
    form.handle_key(&letter('d'));
    assert_eq!(form.prerequisites().ids(), &[8]);
    form.handle_key(&letter('d'));
    assert_eq!(form.prerequisites().ids(), &[8]);
    form.select_index(Some(0));
    form.handle_key(&letter('d'));
    assert_eq!(form.prerequisites().ids(), &[] as &[Id]);
    form.handle_key(&letter('a'));
    match form.state() {
        LessonEditFormState::AddingPrereq(finder) => {
            let mut offered = finder.match_list().ids().to_vec();
            offered.sort();
            assert_eq!(offered, vec![1, 3, 8]);
        }
        _ => panic!("a finder is open"),
    }
}

#[test]
fn a_form_ends_with_the_lesson_as_written() {
    let mut form = form();
    form.handle_key(&press(KeyCode::Backspace));
    form.handle_key(&press(KeyCode::Tab));
    form.handle_key(&letter('a'));
    for c in "Topology".chars() {
        form.handle_key(&letter(c));
    }
    form.handle_key(&press(KeyCode::Enter));
    form.handle_key(&press(KeyCode::Enter));
    form.handle_key(&press(KeyCode::Tab));
    match form.handle_key(&press(KeyCode::Enter)) {
        LessonEditFormAction::Terminate(Some(written)) => assert_eq!(
            written,
            LessonInfo {
                name: String::from("Manifold"),
                direct_prerequisites: vec![8, 8],
                status: LessonStatus::GoodEnough,
                tags: vec![],
            }
        ),
        _ => panic!("the form ends with a lesson"),
    }
}
