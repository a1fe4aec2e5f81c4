//! The program as its keys drive it: a graph of lessons, the list of the
//! lessons on screen, and what the user is busy with.

use crate::components::event::{KeyCode, KeyEvent, KeyEventKind};
use crate::components::fuzzyfinder::{entries, FuzzyFinder, FuzzyFinderAction, FuzzyFinderView};
use crate::components::lesson_edit_form::{
    FormActionView, FormStateView, LessonEditForm, LessonEditFormAction, LessonEditFormView,
};
use crate::components::node_list::{NodeList, NodeListView};
use crate::components::study_editor::{StudyEditor, StudyEditorAction, StudyEditorView};
use crate::graph::{Graph, GraphView};
use crate::lesson::{lemma_without_contains, without, Id, LessonInfo, LessonView};
use crate::readiness::is_pending;
use crate::relation::{depends, lemma_prerequisite_independent};
use crate::schedule::{LessonStatus, StudyChoice};
use crate::storage::IOBackend;
use vstd::prelude::*;

verus! {

/// What the user is busy with.
pub enum AppState {
    BrowsingLessons,
    AddingNewLesson(LessonEditForm),
    EditingLesson(Id, LessonEditForm),
    ConfirmingDeletion(Id),
    Studying(Id, StudyEditor),
    Searching(FuzzyFinder),
    Quitting,
}

/// An `AppState` as a mathematical value.
pub enum AppStateView {
    BrowsingLessons,
    AddingNewLesson(LessonEditFormView),
    EditingLesson(Id, LessonEditFormView),
    ConfirmingDeletion(Id),
    Studying(Id, StudyEditorView),
    Searching(FuzzyFinderView),
    Quitting,
}

impl View for AppState {
    type V = AppStateView;

    open spec fn view(&self) -> AppStateView {
        match self {
            AppState::BrowsingLessons => AppStateView::BrowsingLessons,
            AppState::AddingNewLesson(form) => AppStateView::AddingNewLesson(form@),
            AppState::EditingLesson(id, form) => AppStateView::EditingLesson(*id, form@),
            AppState::ConfirmingDeletion(id) => AppStateView::ConfirmingDeletion(*id),
            AppState::Studying(id, editor) => AppStateView::Studying(*id, editor@),
            AppState::Searching(finder) => AppStateView::Searching(finder@),
            AppState::Quitting => AppStateView::Quitting,
        }
    }
}

/// Why a key press could not be followed.
#[derive(Debug)]
pub enum KeyError<E> {
    /// The store refused a change; the graph is as it was.
    Storage(E),
    /// No identifier is left for a new lesson.
    IdsExhausted,
}

/// The program as its keys drive it.
pub struct App<T: IOBackend> {
    lessons: Graph<T>,
    main_list: NodeList,
    state: AppState,
    rng: rand::rngs::ThreadRng,
}

/// An `App` as a mathematical value.
pub struct AppView {
    pub lessons: GraphView,
    pub main_list: NodeListView,
    pub state: AppStateView,
}

impl<T: IOBackend> View for App<T> {
    type V = AppView;

    closed spec fn view(&self) -> AppView {
        AppView { lessons: self.lessons@, main_list: self.main_list@, state: self.state@ }
    }
}

impl AppView {
    /// The graph is well formed, and it holds the lessons of the list on
    /// screen and the lesson that the user is busy with. A form for a new
    /// lesson offers lessons of the graph, and a form on a lesson offers
    /// lessons that do not depend on it.
    pub open spec fn wf(self) -> bool {
        &&& self.lessons.wf()
        &&& forall|i: int|
            0 <= i < self.main_list.ids.len() ==> self.lessons.nodes.contains_key(
                #[trigger] self.main_list.ids[i],
            )
        &&& match self.state {
            AppStateView::AddingNewLesson(form) => form.within(self.lessons.nodes.dom()),
            AppStateView::EditingLesson(id, form) => self.lessons.nodes.contains_key(id)
                && form.within(self.independent_of(id)),
            AppStateView::Studying(id, _) => self.lessons.nodes.contains_key(id),
            AppStateView::ConfirmingDeletion(id) => self.lessons.nodes.contains_key(id),
            _ => true,
        }
    }

    /// The lessons that do not depend on the lesson `id`: those that `id`
    /// can require without requiring itself.
    pub open spec fn independent_of(self, id: Id) -> Set<Id> {
        Set::new(
            |other: Id|
                self.lessons.nodes.contains_key(other) && !depends(self.lessons.edges(), other, id),
        )
    }

    /// The program busy with `state`.
    pub open spec fn busy_with(self, state: AppStateView) -> AppView {
        AppView { lessons: self.lessons, main_list: self.main_list, state }
    }

    /// The program with `main_list` on screen.
    pub open spec fn listing(self, main_list: NodeListView) -> AppView {
        AppView { lessons: self.lessons, main_list, state: self.state }
    }

    /// The form that opens on a new lesson: every lesson of the graph can
    /// be made a prerequisite, and nothing is written yet.
    pub open spec fn blank_form(self) -> LessonEditFormView {
        LessonEditFormView {
            potential_prerequisites: Map::new(
                |id: Id| self.lessons.nodes.contains_key(id),
                |id: Id| (self.lessons.nodes[id].lesson, false),
            ),
            name_input: Seq::empty(),
            prerequisites: NodeListView { ids: Seq::empty(), selected: Some(0) },
            state: FormStateView::EditingName,
            lesson_status: LessonStatus::NotPracticed,
        }
    }

    /// The form that opens on the lesson `id`: the lessons that do not
    /// depend on `id` can be made prerequisites, and the form holds the
    /// lesson as it is.
    pub open spec fn form_on(self, id: Id) -> LessonEditFormView {
        LessonEditFormView {
            potential_prerequisites: Map::new(
                |other: Id| self.independent_of(id).contains(other),
                |other: Id| (self.lessons.nodes[other].lesson, false),
            ),
            name_input: self.lessons.nodes[id].lesson.name,
            prerequisites: NodeListView {
                ids: self.lessons.nodes[id].lesson.direct_prerequisites,
                selected: Some(0),
            },
            state: FormStateView::EditingName,
            lesson_status: self.lessons.nodes[id].lesson.status,
        }
    }

    /// `list` holds every lesson of the graph, each once.
    pub open spec fn lists(self, list: Seq<(Id, LessonView)>) -> bool {
        &&& list.len() == self.lessons.nodes.dom().len()
        &&& forall|i: int, j: int|
            0 <= i < list.len() && 0 <= j < list.len() && i != j ==> list[i].0 != list[j].0
        &&& forall|i: int|
            0 <= i < list.len() ==> self.lessons.nodes.contains_key((#[trigger] list[i]).0)
                && list[i].1 == self.lessons.nodes[list[i].0].lesson
    }

    /// Whether the key press `key` can take the program, while the lessons
    /// are browsed, to `after`: `q` quits, `a` opens a form for a new
    /// lesson, `/` opens a finder, `d` asks whether the selected lesson is
    /// to be deleted, `e` opens a form on it and `l` a study editor, `r`
    /// puts the cursor on a pending lesson picked at random, and any other
    /// key goes to the list.
    pub open spec fn browsing(self, key: KeyEvent, after: AppView) -> bool {
        &&& after.lessons == self.lessons
        &&& match key.code {
            KeyCode::Char(c) => if c == 'q' {
                after == self.busy_with(AppStateView::Quitting)
            } else if c == 'a' {
                after == self.busy_with(AppStateView::AddingNewLesson(self.blank_form()))
            } else if c == '/' {
                exists|list: Seq<(Id, LessonView)>| #[trigger]
                    self.lists(list) && after == self.busy_with(
                        AppStateView::Searching(FuzzyFinderView::opening(list)),
                    )
            } else if c == 'd' {
                after == (match self.main_list.current() {
                    Some(id) => self.busy_with(AppStateView::ConfirmingDeletion(id)),
                    None => self,
                })
            } else if c == 'e' {
                after == (match self.main_list.current() {
                    Some(id) => self.busy_with(AppStateView::EditingLesson(id, self.form_on(id))),
                    None => self,
                })
            } else if c == 'l' {
                after == (match self.main_list.current() {
                    Some(id) => self.busy_with(
                        AppStateView::Studying(
                            id,
                            StudyEditorView::opening(self.lessons.nodes[id].lesson.status),
                        ),
                    ),
                    None => self,
                })
            } else if c == 'r' {
                after == self || exists|id: Id|
                    is_pending(self.lessons.nodes, id) && after
                        == #[trigger] self.listing(self.main_list.pointing_at(id))
            } else {
                after == self.listing(self.main_list.moved(key))
            },
            _ => after == self.listing(self.main_list.moved(key)),
        }
    }

    /// A key press while a new lesson is written: it goes to the form.
    /// Where the form ends with a lesson, the lesson is created and joins
    /// the list on screen; where it ends, the lessons are browsed again.
    /// Where the lesson cannot be created, the form stays open.
    pub open spec fn adding(
        self,
        form: LessonEditFormView,
        key: KeyEvent,
        after: AppView,
        failed: bool,
    ) -> bool {
        exists|next: LessonEditFormView, action: FormActionView| #[trigger]
            form.steps(key, next, action) && match action {
                FormActionView::Noop => !failed && after == self.busy_with(
                    AppStateView::AddingNewLesson(next),
                ),
                FormActionView::Terminate(None) => !failed && after == self.busy_with(
                    AppStateView::BrowsingLessons,
                ),
                FormActionView::Terminate(Some(lesson)) => if failed {
                    after == self.busy_with(AppStateView::AddingNewLesson(next))
                } else {
                    self.lessons.next_id < u64::MAX && after == (AppView {
                        lessons: self.lessons.created(lesson),
                        main_list: NodeListView {
                            ids: self.main_list.ids.push(self.lessons.next_id),
                            selected: self.main_list.selected,
                        },
                        state: AppStateView::BrowsingLessons,
                    })
                },
            }
    }

    /// The lesson `lesson` with the tags of the lesson `id`: a form shows no
    /// tags, and leaves those of the lesson as they are.
    pub open spec fn tagged_as(self, id: Id, lesson: LessonView) -> LessonView {
        LessonView {
            name: lesson.name,
            direct_prerequisites: lesson.direct_prerequisites,
            status: lesson.status,
            tags: self.lessons.nodes[id].lesson.tags,
        }
    }

    /// A key press while the lesson `id` is rewritten: it goes to the form.
    /// Where the form ends with a lesson, that lesson takes the place of
    /// the lesson `id`, with the tags that the lesson `id` had; where it
    /// ends, the lessons are browsed again. Where the lesson cannot be
    /// edited, the form stays open.
    pub open spec fn editing(
        self,
        id: Id,
        form: LessonEditFormView,
        key: KeyEvent,
        after: AppView,
        failed: bool,
    ) -> bool {
        exists|next: LessonEditFormView, action: FormActionView| #[trigger]
            form.steps(key, next, action) && match action {
                FormActionView::Noop => !failed && after == self.busy_with(
                    AppStateView::EditingLesson(id, next),
                ),
                FormActionView::Terminate(None) => !failed && after == self.busy_with(
                    AppStateView::BrowsingLessons,
                ),
                FormActionView::Terminate(Some(lesson)) => if failed {
                    after == self.busy_with(AppStateView::EditingLesson(id, next))
                } else {
                    &&& self.lessons.edited(id, self.tagged_as(id, lesson), after.lessons)
                    &&& after.main_list == self.main_list
                    &&& after.state == AppStateView::BrowsingLessons
                },
            }
    }

    /// A key press while a lesson is searched: it goes to the finder. Where
    /// the finder ends, the lessons are browsed again, with the cursor on
    /// the lesson that was found, if one was.
    pub open spec fn searching(self, finder: FuzzyFinderView, key: KeyEvent, after: AppView) -> bool {
        match finder.step(key).1 {
            FuzzyFinderAction::Terminate(Some(id)) => after == (AppView {
                lessons: self.lessons,
                main_list: self.main_list.pointing_at(id),
                state: AppStateView::BrowsingLessons,
            }),
            FuzzyFinderAction::Terminate(None) => after == self.busy_with(
                AppStateView::BrowsingLessons,
            ),
            FuzzyFinderAction::Noop => after == self.busy_with(
                AppStateView::Searching(finder.step(key).0),
            ),
        }
    }

    /// The lesson `id` with the practice status that `choice` gives it on
    /// the day of the graph.
    pub open spec fn studied(self, id: Id, choice: StudyChoice) -> LessonView {
        LessonView {
            name: self.lessons.nodes[id].lesson.name,
            direct_prerequisites: self.lessons.nodes[id].lesson.direct_prerequisites,
            status: choice.status_on(self.lessons.today),
            tags: self.lessons.nodes[id].lesson.tags,
        }
    }

    /// A key press while the lesson `id` is studied: it goes to the study
    /// editor. Where the editor ends with a choice, the lesson gets the
    /// practice status that the choice gives it; where it ends, the lessons
    /// are browsed again. Where the lesson cannot be edited, the editor
    /// stays open.
    pub open spec fn studying(
        self,
        id: Id,
        editor: StudyEditorView,
        key: KeyEvent,
        after: AppView,
        failed: bool,
    ) -> bool {
        match editor.step(key).1 {
            StudyEditorAction::Noop => !failed && after == self.busy_with(
                AppStateView::Studying(id, editor.step(key).0),
            ),
            StudyEditorAction::Terminate(None) => !failed && after == self.busy_with(
                AppStateView::BrowsingLessons,
            ),
            StudyEditorAction::Terminate(Some(choice)) => if failed {
                after == self.busy_with(AppStateView::Studying(id, editor.step(key).0))
            } else {
                &&& self.lessons.edited(id, self.studied(id, choice), after.lessons)
                &&& after.main_list == self.main_list
                &&& after.state == AppStateView::BrowsingLessons
            },
        }
    }

    /// A key press on the question whether the lesson `id` is to be
    /// deleted: `Y` deletes it and takes it from the list on screen, `n`
    /// and Esc leave it, and the lessons are browsed again; no other key
    /// does anything.
    pub open spec fn confirming(self, id: Id, key: KeyEvent, after: AppView, failed: bool) -> bool {
        match key.code {
            KeyCode::Char(c) if c == 'Y' => if failed {
                after == self
            } else {
                &&& self.lessons.deleted(id, after.lessons)
                &&& after.main_list == (NodeListView {
                    ids: without(self.main_list.ids, id),
                    selected: self.main_list.selected,
                })
                &&& after.state == AppStateView::BrowsingLessons
            },
            KeyCode::Char(c) if c == 'n' => !failed && after == self.busy_with(
                AppStateView::BrowsingLessons,
            ),
            KeyCode::Esc => !failed && after == self.busy_with(AppStateView::BrowsingLessons),
            _ => !failed && after == self,
        }
    }

    /// Whether the key event `key` can take the program to `after`, with
    /// or without a failure. Only key presses count, and a program that has
    /// quit stays as it is.
    pub open spec fn steps(self, key: KeyEvent, after: AppView, failed: bool) -> bool {
        if key.kind != KeyEventKind::Press {
            !failed && after == self
        } else {
            match self.state {
                AppStateView::BrowsingLessons => !failed && self.browsing(key, after),
                AppStateView::AddingNewLesson(form) => self.adding(form, key, after, failed),
                AppStateView::EditingLesson(id, form) => self.editing(id, form, key, after, failed),
                AppStateView::Searching(finder) => !failed && self.searching(finder, key, after),
                AppStateView::Studying(id, editor) => self.studying(id, editor, key, after, failed),
                AppStateView::ConfirmingDeletion(id) => self.confirming(id, key, after, failed),
                AppStateView::Quitting => !failed && after == self,
            }
        }
    }
}

impl<T: IOBackend> App<T> {
    /// Whether the program is well formed: see `AppView::wf`.
    pub open spec fn wf(&self) -> bool {
        self@.wf()
    }

    /// The program over the graph `lessons`: every lesson is on screen, and
    /// the lessons are browsed.
    pub fn new(lessons: Graph<T>, rng: rand::rngs::ThreadRng) -> (app: Self)
        ensures
            lessons.wf() ==> app.wf(),
            app@.lessons == lessons@,
            app@.state == AppStateView::BrowsingLessons,
            app@.main_list.selected == Some(0usize),
            app@.main_list.ids.no_duplicates(),
            app@.main_list.ids.to_set() == lessons@.nodes.dom(),
    {
        let lesson_ids = lessons.get_ids();
        proof {
            assert forall|i: int| 0 <= i < lesson_ids@.len() implies lessons@.nodes.contains_key(
                #[trigger] lesson_ids@[i],
            ) by {
                assert(lesson_ids@.contains(lesson_ids@[i]));
                assert(lesson_ids@.to_set().contains(lesson_ids@[i]));
            }
        }
        Self { lessons, main_list: NodeList::new(lesson_ids), state: AppState::BrowsingLessons, rng }
    }

    /// The graph of the program.
    pub fn lessons(&self) -> (lessons: &Graph<T>)
        ensures
            lessons@ == self@.lessons,
    {
        &self.lessons
    }

    /// The list of the lessons on screen.
    pub fn main_list(&self) -> (main_list: &NodeList)
        ensures
            main_list@ == self@.main_list,
    {
        &self.main_list
    }

    /// What the user is busy with.
    pub fn state(&self) -> (state: &AppState)
        ensures
            state@ == self@.state,
    {
        &self.state
    }

    /// Whether the user has quit.
    pub fn is_quitting(&self) -> (quitting: bool)
        ensures
            quitting == (self@.state is Quitting),
    {
        match self.state {
            AppState::Quitting => true,
            _ => false,
        }
    }

    /// Puts the cursor of the list on screen on `index`.
    pub fn select_index(&mut self, index: Option<usize>)
        ensures
            old(self).wf() ==> final(self).wf(),
            final(self)@ == old(self)@.listing(
                NodeListView { ids: old(self)@.main_list.ids, selected: index },
            ),
    {
        self.main_list.select_index(index);
    }

    /// Puts the cursor of the prerequisites of the open form on `index`,
    /// where a form is open.
    pub fn select_form_index(&mut self, index: Option<usize>)
        ensures
            old(self).wf() ==> final(self).wf(),
            final(self)@ == old(self)@.busy_with(
                match old(self)@.state {
                    AppStateView::AddingNewLesson(form) => AppStateView::AddingNewLesson(
                        form.pointing(index),
                    ),
                    AppStateView::EditingLesson(id, form) => AppStateView::EditingLesson(
                        id,
                        form.pointing(index),
                    ),
                    state => state,
                },
            ),
    {
        match &mut self.state {
            AppState::AddingNewLesson(form) => form.select_index(index),
            AppState::EditingLesson(_, form) => form.select_index(index),
            _ => (),
        }
    }

    /// Puts the cursor of the results of the open finder on `index`, where
    /// a finder is open, by itself or in a form.
    pub fn select_finder_index(&mut self, index: Option<usize>)
        ensures
            old(self).wf() ==> final(self).wf(),
            final(self)@ == old(self)@.busy_with(
                match old(self)@.state {
                    AppStateView::AddingNewLesson(form) => AppStateView::AddingNewLesson(
                        form.finder_pointing(index),
                    ),
                    AppStateView::EditingLesson(id, form) => AppStateView::EditingLesson(
                        id,
                        form.finder_pointing(index),
                    ),
                    AppStateView::Searching(finder) => AppStateView::Searching(
                        finder.pointing(index),
                    ),
                    state => state,
                },
            ),
    {
        match &mut self.state {
            AppState::AddingNewLesson(form) => form.select_finder_index(index),
            AppState::EditingLesson(_, form) => form.select_finder_index(index),
            AppState::Searching(finder) => finder.select_index(index),
            _ => (),
        }
    }

    /// Takes the key event `key`: see `AppView::steps`.
    ///
    /// A form that ends with a lesson has the lesson created or edited, a
    /// study editor that ends with a choice has the status of the lesson
    /// edited, and `Y` on the question has the lesson deleted. The graph
    /// changes in no other way, and it stays well formed. Where the change
    /// cannot be made, the graph is left as it was and the reason is
    /// returned.
    pub fn handle_key(&mut self, key: &KeyEvent) -> (handled: Result<(), KeyError<T::Error>>)
        requires
            old(self).wf(),
        ensures
            final(self).wf(),
            old(self)@.steps(*key, final(self)@, handled is Err),
            handled is Err ==> final(self)@.lessons == old(self)@.lessons && final(self)@.main_list
                == old(self)@.main_list,
    {
        let ghost before = self@;
        match key.kind {
            KeyEventKind::Press => {},
            _ => {
                return Ok(());
            },
        }
        match &mut self.state {
            AppState::BrowsingLessons => {
                self.handle_key_browsing(key);
                Ok(())
            },
            AppState::AddingNewLesson(event_name) => {
                let ghost form = event_name@;
                let action = event_name.handle_key(key);
                let ghost next = event_name@;
                proof {
                    assert(form.steps(*key, next, action@));
                    form.lemma_steps_within(*key, next, action@, before.lessons.nodes.dom());
                }
                match action {
                    LessonEditFormAction::Terminate(Some(lesson_info)) => {
                        if self.lessons.next_id() == u64::MAX {
                            return Err(KeyError::IdsExhausted);
                        }
                        match self.lessons.create_new_node(lesson_info) {
                            Ok(id) => {
                                self.main_list.push(id);
                                self.state = AppState::BrowsingLessons;
                                proof {
                                    assert forall|i: int|
                                        0 <= i < self@.main_list.ids.len() implies self@.lessons.nodes.contains_key(
                                        #[trigger] self@.main_list.ids[i],
                                    ) by {
                                        if i < before.main_list.ids.len() {
                                            assert(before.lessons.nodes.contains_key(
                                                before.main_list.ids[i],
                                            ));
                                        }
                                    }
                                }
                                Ok(())
                            },
                            Err(error) => Err(KeyError::Storage(error)),
                        }
                    },
                    LessonEditFormAction::Terminate(None) => {
                        self.state = AppState::BrowsingLessons;
                        Ok(())
                    },
                    LessonEditFormAction::Noop => Ok(()),
                }
            },
            AppState::EditingLesson(id, lesson) => {
                let ghost form = lesson@;
                let action = lesson.handle_key(key);
                let ghost next = lesson@;
                proof {
                    assert(form.steps(*key, next, action@));
                    form.lemma_steps_within(*key, next, action@, before.independent_of(*id));
                }
                match action {
                    LessonEditFormAction::Terminate(Some(written)) => {
                        let id: Id = *id;
                        let mut lesson_info = self.lessons.get(id).lesson.clone();
                        lesson_info.name = written.name;
                        lesson_info.direct_prerequisites = written.direct_prerequisites;
                        lesson_info.status = written.status;
                        assert(lesson_info@ == before.tagged_as(id, written@));
                        match self.lessons.edit_node(id, lesson_info) {
                            Ok(()) => {
                                self.state = AppState::BrowsingLessons;
                                proof {
                                    assert forall|i: int|
                                        0 <= i < self@.main_list.ids.len() implies self@.lessons.nodes.contains_key(
                                        #[trigger] self@.main_list.ids[i],
                                    ) by {
                                        assert(before.lessons.nodes.dom().contains(
                                            before.main_list.ids[i],
                                        ));
                                    }
                                }
                                Ok(())
                            },
                            Err(error) => Err(KeyError::Storage(error)),
                        }
                    },
                    LessonEditFormAction::Terminate(None) => {
                        self.state = AppState::BrowsingLessons;
                        Ok(())
                    },
                    LessonEditFormAction::Noop => Ok(()),
                }
            },
            AppState::Searching(finder) => {
                if let FuzzyFinderAction::Terminate(id) = finder.handle_key(key) {
                    self.state = AppState::BrowsingLessons;
                    if let Some(id) = id {
                        self.main_list.select(id);
                    }
                }
                Ok(())
            },
            AppState::Studying(id, study_editor) => match study_editor.handle_key(key) {
                StudyEditorAction::Terminate(Some(choice)) => {
                    let id: Id = *id;
                    let mut lesson_info = self.lessons.get(id).lesson.clone();
                    lesson_info.status = choice.to_lesson_status(self.lessons.today());
                    proof {
                        let edges = before.lessons.edges();
                        assert(edges[id] == lesson_info@.direct_prerequisites);
                        assert forall|i: int|
                            0 <= i < edges[id].len() implies before.lessons.nodes.contains_key(
                            #[trigger] edges[id][i],
                        ) && !depends(edges, edges[id][i], id) by {
                            assert(edges.contains_key(edges[id][i]));
                            lemma_prerequisite_independent(edges, id, i);
                        }
                    }
                    match self.lessons.edit_node(id, lesson_info) {
                        Ok(()) => {
                            self.state = AppState::BrowsingLessons;
                            proof {
                                assert forall|i: int|
                                    0 <= i < self@.main_list.ids.len() implies self@.lessons.nodes.contains_key(
                                    #[trigger] self@.main_list.ids[i],
                                ) by {
                                    assert(before.lessons.nodes.dom().contains(
                                        before.main_list.ids[i],
                                    ));
                                }
                            }
                            Ok(())
                        },
                        Err(error) => Err(KeyError::Storage(error)),
                    }
                },
                StudyEditorAction::Terminate(None) => {
                    self.state = AppState::BrowsingLessons;
                    Ok(())
                },
                StudyEditorAction::Noop => Ok(()),
            },
            AppState::ConfirmingDeletion(id) => match key.code {
                KeyCode::Char('Y') => {
                    let id: Id = *id;
                    match self.lessons.delete_node(id) {
                        Ok(()) => {
                            self.main_list.remove_node(id);
                            self.state = AppState::BrowsingLessons;
                            proof {
                                lemma_without_contains(before.main_list.ids, id);
                                assert forall|i: int|
                                    0 <= i < self@.main_list.ids.len() implies self@.lessons.nodes.contains_key(
                                    #[trigger] self@.main_list.ids[i],
                                ) by {
                                    let kept = self@.main_list.ids[i];
                                    assert(self@.main_list.ids.contains(kept));
                                    assert(before.main_list.ids.contains(kept));
                                    let j = choose|j: int|
                                        0 <= j < before.main_list.ids.len()
                                            && before.main_list.ids[j] == kept;
                                    assert(before.lessons.nodes.dom().contains(
                                        before.main_list.ids[j],
                                    ));
                                }
                            }
                            Ok(())
                        },
                        Err(error) => Err(KeyError::Storage(error)),
                    }
                },
                KeyCode::Char('n') | KeyCode::Esc => {
                    self.state = AppState::BrowsingLessons;
                    Ok(())
                },
                _ => Ok(()),
            },
            AppState::Quitting => Ok(()),
        }
    }

    fn handle_key_browsing(&mut self, key: &KeyEvent)
        requires
            old(self).wf(),
            old(self)@.state is BrowsingLessons,
        ensures
            final(self).wf(),
            old(self)@.browsing(*key, final(self)@),
    {
        match key.code {
            KeyCode::Char('q') => self.state = AppState::Quitting,
            KeyCode::Char('a') => {
                let lessons = self.lessons.lesson_infos();
                let form = LessonEditForm::new(lessons, LessonInfo::default());
                assert(form@ =~= old(self)@.blank_form()) by {
                    assert(form@.potential_prerequisites =~= old(self)@.blank_form().potential_prerequisites);
                }
                self.state = AppState::AddingNewLesson(form)
            },
            KeyCode::Char('/') => {
                let list = self.lessons.lesson_list();
                assert(old(self)@.lists(entries(list@)));
                self.state = AppState::Searching(FuzzyFinder::new(list))
            },
            KeyCode::Char('d') => {
                if let Some(id) = self.main_list.currently_selected_id() {
                    self.state = AppState::ConfirmingDeletion(id);
                }
            },
            KeyCode::Char('e') => {
                if let Some(currently_selected) = self.main_list.currently_selected_id() {
                    let form = LessonEditForm::new(
                        self.lessons.independent_of(currently_selected),
                        self.lessons.get(currently_selected).lesson.clone(),
                    );
                    proof {
                        assert(form@ =~= old(self)@.form_on(currently_selected)) by {
                            assert(form@.potential_prerequisites =~= old(self)@.form_on(
                                currently_selected,
                            ).potential_prerequisites);
                        }
                        let edges = old(self)@.lessons.edges();
                        assert(edges[currently_selected] == form@.prerequisites.ids);
                        assert forall|i: int|
                            0 <= i < form@.prerequisites.ids.len() implies old(self)@.independent_of(currently_selected).contains(
                            #[trigger] form@.prerequisites.ids[i],
                        ) by {
                            assert(edges.contains_key(edges[currently_selected][i]));
                            lemma_prerequisite_independent(edges, currently_selected, i);
                        }
                    }
                    self.state = AppState::EditingLesson(currently_selected, form);
                }
            },
            KeyCode::Char('l') => {
                if let Some(currently_selected_id) = self.main_list.currently_selected_id() {
                    let status = self.lessons.get(currently_selected_id).lesson.status;
                    self.state =
                    AppState::Studying(currently_selected_id, StudyEditor::new(status));
                }
            },
            KeyCode::Char('r') => {
                if let Some(id) = self.lessons.random_pending(&mut self.rng) {
                    self.main_list.select(id);
                    assert(self@ == old(self)@.listing(old(self)@.main_list.pointing_at(id)));
                }
            },
            _ => self.main_list.handle_key(key),
        }
    }
}

} // verus!
