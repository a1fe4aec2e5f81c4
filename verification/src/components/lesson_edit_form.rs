//! The form in which a lesson is written or rewritten: its name, and the
//! lessons that it requires.

use crate::components::event::{KeyCode, KeyEvent};
use crate::components::fuzzyfinder::{entries, ids_of, FuzzyFinder, FuzzyFinderAction, FuzzyFinderView};
use crate::components::node_list::{NodeList, NodeListView};
use crate::components::textinput::{typed, TextInput};
use crate::keys::{keys_of, lemma_listed};
use crate::lesson::{
    lemma_prefix_contains, lemma_push_contains, without, Id, LessonInfo, LessonView,
};
use crate::schedule::LessonStatus;
use std::collections::HashMap;
use vstd::prelude::*;

verus! {

broadcast use vstd::std_specs::hash::group_hash_axioms;

/// What a form is busy with.
#[derive(Debug)]
pub enum LessonEditFormState {
    EditingName,
    NavigatingPrereqs,
    AddingPrereq(FuzzyFinder),
    Validating,
}

/// A `LessonEditFormState` as a mathematical value.
pub enum FormStateView {
    EditingName,
    NavigatingPrereqs,
    AddingPrereq(FuzzyFinderView),
    Validating,
}

impl View for LessonEditFormState {
    type V = FormStateView;

    open spec fn view(&self) -> FormStateView {
        match self {
            LessonEditFormState::EditingName => FormStateView::EditingName,
            LessonEditFormState::NavigatingPrereqs => FormStateView::NavigatingPrereqs,
            LessonEditFormState::AddingPrereq(finder) => FormStateView::AddingPrereq(finder@),
            LessonEditFormState::Validating => FormStateView::Validating,
        }
    }
}

/// The form in which a lesson is written or rewritten.
pub struct LessonEditForm {
    /// The lessons that can be made prerequisites, each with a mark that
    /// tells whether the form has made it one.
    potential_prerequisites: HashMap<Id, (LessonInfo, bool)>,
    name_input: TextInput,
    prerequisites: NodeList,
    state: LessonEditFormState,
    lesson_status: LessonStatus,
}

/// A `LessonEditForm` as a mathematical value.
pub struct LessonEditFormView {
    pub potential_prerequisites: Map<Id, (LessonView, bool)>,
    pub name_input: Seq<char>,
    pub prerequisites: NodeListView,
    pub state: FormStateView,
    pub lesson_status: LessonStatus,
}

/// What a key event leaves to do.
#[derive(Debug)]
pub enum LessonEditFormAction {
    /// Nothing: the form goes on.
    Noop,
    /// The form is done, with the lesson as written or without one.
    Terminate(Option<LessonInfo>),
}

/// A `LessonEditFormAction` as a mathematical value.
pub enum FormActionView {
    Noop,
    Terminate(Option<LessonView>),
}

impl View for LessonEditFormAction {
    type V = FormActionView;

    open spec fn view(&self) -> FormActionView {
        match self {
            LessonEditFormAction::Noop => FormActionView::Noop,
            LessonEditFormAction::Terminate(Some(lesson)) => FormActionView::Terminate(
                Some(lesson@),
            ),
            LessonEditFormAction::Terminate(None) => FormActionView::Terminate(None),
        }
    }
}

/// The marked lessons of a map, as mathematical values.
pub open spec fn marked_view(lessons: Map<Id, (LessonInfo, bool)>) -> Map<Id, (LessonView, bool)> {
    Map::new(|id: Id| lessons.contains_key(id), |id: Id| (lessons[id].0@, lessons[id].1))
}

/// The lessons of a map, as mathematical values, with no mark set.
pub open spec fn unmarked_view(lessons: Map<Id, LessonInfo>) -> Map<Id, (LessonView, bool)> {
    Map::new(|id: Id| lessons.contains_key(id), |id: Id| (lessons[id]@, false))
}

/// The lessons with the mark of `id` set to `mark`, where `id` is one of
/// them.
pub open spec fn remarked(lessons: Map<Id, (LessonView, bool)>, id: Id, mark: bool) -> Map<
    Id,
    (LessonView, bool),
> {
    if lessons.contains_key(id) {
        lessons.insert(id, (lessons[id].0, mark))
    } else {
        lessons
    }
}

/// `list` holds the lessons whose mark is not set, each once.
pub open spec fn offered(lessons: Map<Id, (LessonView, bool)>, list: Seq<(Id, LessonView)>) -> bool {
    &&& ids_of(list).no_duplicates()
    &&& forall|i: int|
        0 <= i < list.len() ==> lessons.contains_key((#[trigger] list[i]).0) && lessons[list[i].0]
            == (list[i].1, false)
    &&& forall|id: Id|
        lessons.contains_key(id) && !lessons[id].1 ==> #[trigger] ids_of(list).contains(id)
}

impl View for LessonEditForm {
    type V = LessonEditFormView;

    closed spec fn view(&self) -> LessonEditFormView {
        LessonEditFormView {
            potential_prerequisites: marked_view(self.potential_prerequisites@),
            name_input: self.name_input@,
            prerequisites: self.prerequisites@,
            state: self.state@,
            lesson_status: self.lesson_status,
        }
    }
}

impl LessonEditFormView {
    /// The form in the state `state`.
    pub open spec fn busy_with(self, state: FormStateView) -> LessonEditFormView {
        LessonEditFormView {
            potential_prerequisites: self.potential_prerequisites,
            name_input: self.name_input,
            prerequisites: self.prerequisites,
            state,
            lesson_status: self.lesson_status,
        }
    }

    /// The form with the cursor of the prerequisites on `index`.
    pub open spec fn pointing(self, index: Option<usize>) -> LessonEditFormView {
        LessonEditFormView {
            potential_prerequisites: self.potential_prerequisites,
            name_input: self.name_input,
            prerequisites: NodeListView { ids: self.prerequisites.ids, selected: index },
            state: self.state,
            lesson_status: self.lesson_status,
        }
    }

    /// The form with the cursor of the results of its finder on `index`,
    /// where a finder is open.
    pub open spec fn finder_pointing(self, index: Option<usize>) -> LessonEditFormView {
        match self.state {
            FormStateView::AddingPrereq(finder) => self.busy_with(
                FormStateView::AddingPrereq(finder.pointing(index)),
            ),
            _ => self,
        }
    }

    /// The lesson as the form holds it, without tags.
    pub open spec fn lesson(self) -> LessonView {
        LessonView {
            name: self.name_input,
            direct_prerequisites: self.prerequisites.ids,
            status: self.lesson_status,
            tags: Seq::empty(),
        }
    }

    /// A key event while the name is edited: Tab, Enter and Alt-`j` pass to
    /// the prerequisites, Esc ends without a lesson, and any other key goes
    /// to the name.
    pub open spec fn editing_name(
        self,
        key: KeyEvent,
        after: LessonEditFormView,
        action: FormActionView,
    ) -> bool {
        match key.code {
            KeyCode::Tab | KeyCode::Enter => after == self.busy_with(
                FormStateView::NavigatingPrereqs,
            ) && action == FormActionView::Noop,
            KeyCode::Char(c) if c == 'j' && key.alt => after == self.busy_with(
                FormStateView::NavigatingPrereqs,
            ) && action == FormActionView::Noop,
            KeyCode::Esc => after == self && action == FormActionView::Terminate(None),
            _ => after == (LessonEditFormView {
                potential_prerequisites: self.potential_prerequisites,
                name_input: typed(self.name_input, key),
                prerequisites: self.prerequisites,
                state: self.state,
                lesson_status: self.lesson_status,
            }) && action == FormActionView::Noop,
        }
    }

    /// A key event among the prerequisites: `a` opens a finder over the
    /// lessons that are not marked, Esc ends without a lesson, Tab and
    /// Alt-`j` pass to the validation, BackTab and Alt-`k` pass to the name,
    /// `d` strikes the selected prerequisite and takes its mark away, and
    /// any other key goes to the list of prerequisites.
    pub open spec fn navigating_prereqs(
        self,
        key: KeyEvent,
        after: LessonEditFormView,
        action: FormActionView,
    ) -> bool {
        match key.code {
            KeyCode::Char(c) if c == 'a' => action == FormActionView::Noop && exists|
                list: Seq<(Id, LessonView)>,
            |
                #[trigger] offered(self.potential_prerequisites, list) && after == self.busy_with(
                    FormStateView::AddingPrereq(FuzzyFinderView::opening(list)),
                ),
            KeyCode::Esc => after == self && action == FormActionView::Terminate(None),
            KeyCode::Tab => after == self.busy_with(FormStateView::Validating) && action
                == FormActionView::Noop,
            KeyCode::BackTab => after == self.busy_with(FormStateView::EditingName) && action
                == FormActionView::Noop,
            KeyCode::Char(c) if c == 'j' && key.alt => after == self.busy_with(
                FormStateView::Validating,
            ) && action == FormActionView::Noop,
            KeyCode::Char(c) if c == 'k' && key.alt => after == self.busy_with(
                FormStateView::EditingName,
            ) && action == FormActionView::Noop,
            KeyCode::Char(c) if c == 'd' => action == FormActionView::Noop && after == (
            match self.prerequisites.current() {
                Some(id) => LessonEditFormView {
                    potential_prerequisites: remarked(self.potential_prerequisites, id, false),
                    name_input: self.name_input,
                    prerequisites: NodeListView {
                        ids: without(self.prerequisites.ids, id),
                        selected: self.prerequisites.selected,
                    },
                    state: self.state,
                    lesson_status: self.lesson_status,
                },
                None => self,
            }),
            _ => action == FormActionView::Noop && after == (LessonEditFormView {
                potential_prerequisites: self.potential_prerequisites,
                name_input: self.name_input,
                prerequisites: self.prerequisites.moved(key),
                state: self.state,
                lesson_status: self.lesson_status,
            }),
        }
    }

    /// A key event while a prerequisite is searched: it goes to the finder.
    /// Where the finder ends with a lesson, the lesson is added to the
    /// prerequisites and marked; where it ends, with or without one, the
    /// form is back among the prerequisites.
    pub open spec fn adding_prereq(
        self,
        finder: FuzzyFinderView,
        key: KeyEvent,
        after: LessonEditFormView,
        action: FormActionView,
    ) -> bool {
        action == FormActionView::Noop && after == (match finder.step(key).1 {
            FuzzyFinderAction::Terminate(Some(id)) => LessonEditFormView {
                potential_prerequisites: remarked(self.potential_prerequisites, id, true),
                name_input: self.name_input,
                prerequisites: NodeListView {
                    ids: self.prerequisites.ids.push(id),
                    selected: self.prerequisites.selected,
                },
                state: FormStateView::NavigatingPrereqs,
                lesson_status: self.lesson_status,
            },
            FuzzyFinderAction::Terminate(None) => self.busy_with(FormStateView::NavigatingPrereqs),
            FuzzyFinderAction::Noop => self.busy_with(
                FormStateView::AddingPrereq(finder.step(key).0),
            ),
        })
    }

    /// A key event on the validation: Alt-`k` and BackTab pass to the
    /// prerequisites, Enter ends with the lesson as written, Esc ends
    /// without a lesson, and no other key does anything.
    pub open spec fn validating(
        self,
        key: KeyEvent,
        after: LessonEditFormView,
        action: FormActionView,
    ) -> bool {
        match key.code {
            KeyCode::Char(c) if c == 'k' && key.alt => after == self.busy_with(
                FormStateView::NavigatingPrereqs,
            ) && action == FormActionView::Noop,
            KeyCode::BackTab => after == self.busy_with(FormStateView::NavigatingPrereqs) && action
                == FormActionView::Noop,
            KeyCode::Enter => after == self && action == FormActionView::Terminate(
                Some(self.lesson()),
            ),
            KeyCode::Esc => after == self && action == FormActionView::Terminate(None),
            _ => after == self && action == FormActionView::Noop,
        }
    }

    /// The prerequisites of the form, and the lessons that it can make
    /// prerequisites, are among `allowed`; and an open finder searches
    /// lessons among `allowed`, with results that match its search.
    pub open spec fn within(self, allowed: Set<Id>) -> bool {
        &&& forall|i: int|
            0 <= i < self.prerequisites.ids.len() ==> allowed.contains(
                #[trigger] self.prerequisites.ids[i],
            )
        &&& forall|id: Id| #[trigger]
            self.potential_prerequisites.contains_key(id) ==> allowed.contains(id)
        &&& self.state matches FormStateView::AddingPrereq(finder) ==> finder.wf() && forall|
            i: int,
        |
            0 <= i < finder.whole_list.len() ==> allowed.contains((#[trigger] finder.whole_list[i]).0)
    }

    /// A form within `allowed` stays within `allowed`, and ends with none
    /// but a lesson whose prerequisites are among `allowed`.
    pub proof fn lemma_steps_within(
        self,
        key: KeyEvent,
        after: LessonEditFormView,
        action: FormActionView,
        allowed: Set<Id>,
    )
        requires
            self.within(allowed),
            self.steps(key, after, action),
        ensures
            after.within(allowed),
            action matches FormActionView::Terminate(Some(lesson)) ==> forall|i: int|
                0 <= i < lesson.direct_prerequisites.len() ==> allowed.contains(
                    #[trigger] lesson.direct_prerequisites[i],
                ),
    {
        match self.state {
            FormStateView::EditingName => {},
            FormStateView::NavigatingPrereqs => {
                match key.code {
                    KeyCode::Char(c) => {
                        if c == 'a' {
                            let list = choose|list: Seq<(Id, LessonView)>| #[trigger]
                                offered(self.potential_prerequisites, list) && after
                                    == self.busy_with(
                                    FormStateView::AddingPrereq(FuzzyFinderView::opening(list)),
                                );
                            crate::components::fuzzyfinder::lemma_matching_all(list);
                            assert forall|i: int| 0 <= i < list.len() implies allowed.contains(
                                (#[trigger] list[i]).0,
                            ) by {
                                assert(self.potential_prerequisites.contains_key(list[i].0));
                            }
                        } else if c == 'd' && !(c == 'j' && key.alt) && !(c == 'k' && key.alt) {
                            if let Some(id) = self.prerequisites.current() {
                                crate::lesson::lemma_without_contains(self.prerequisites.ids, id);
                                let kept = without(self.prerequisites.ids, id);
                                assert forall|i: int| 0 <= i < kept.len() implies allowed.contains(
                                    #[trigger] kept[i],
                                ) by {
                                    assert(kept.contains(kept[i]));
                                    assert(self.prerequisites.ids.contains(kept[i]));
                                    let j = choose|j: int|
                                        0 <= j < self.prerequisites.ids.len()
                                            && self.prerequisites.ids[j] == kept[i];
                                    assert(allowed.contains(self.prerequisites.ids[j]));
                                }
                            }
                        }
                    },
                    _ => {},
                }
            },
            FormStateView::AddingPrereq(finder) => {
                finder.lemma_step(key);
                if let FuzzyFinderAction::Terminate(Some(id)) = finder.step(key).1 {
                    let listed = ids_of(finder.whole_list);
                    let j = choose|j: int| 0 <= j < listed.len() && listed[j] == id;
                    assert(allowed.contains(finder.whole_list[j].0));
                    let longer = self.prerequisites.ids.push(id);
                    assert forall|i: int| 0 <= i < longer.len() implies allowed.contains(
                        #[trigger] longer[i],
                    ) by {
                        if i < self.prerequisites.ids.len() {
                            assert(longer[i] == self.prerequisites.ids[i]);
                        }
                    }
                }
            },
            FormStateView::Validating => {},
        }
    }

    /// Whether the key event `key` can take the form to `after` and leave
    /// `action` to do. Everything is decided by the form and the key, but
    /// for the order of the lessons that a new finder offers.
    pub open spec fn steps(
        self,
        key: KeyEvent,
        after: LessonEditFormView,
        action: FormActionView,
    ) -> bool {
        match self.state {
            FormStateView::EditingName => self.editing_name(key, after, action),
            FormStateView::NavigatingPrereqs => self.navigating_prereqs(key, after, action),
            FormStateView::AddingPrereq(finder) => self.adding_prereq(finder, key, after, action),
            FormStateView::Validating => self.validating(key, after, action),
        }
    }
}

impl LessonEditForm {
    /// A form over the lesson `lesson`, for which the lessons of
    /// `potential_prerequisites` can be made prerequisites.
    #[verifier::loop_isolation(false)]
    pub fn new(potential_prerequisites: HashMap<Id, LessonInfo>, lesson: LessonInfo) -> (form: Self)
        ensures
            form@ == (LessonEditFormView {
                potential_prerequisites: unmarked_view(potential_prerequisites@),
                name_input: lesson.name@,
                prerequisites: NodeListView { ids: lesson.direct_prerequisites@, selected: Some(0) },
                state: FormStateView::EditingName,
                lesson_status: lesson.status,
            }),
    {
        let mut given = potential_prerequisites;
        let ids = keys_of(&given);
        let mut marked: HashMap<Id, (LessonInfo, bool)> = HashMap::new();
        let mut k: usize = 0;
        while k < ids.len()
            invariant
                k <= ids.len(),
                forall|id: Id| marked@.contains_key(id) <==> ids@.subrange(0, k as int).contains(id),
                forall|id: Id|
                    marked@.contains_key(id) ==> #[trigger] marked@[id] == (
                        potential_prerequisites@[id],
                        false,
                    ),
                forall|j: int|
                    k <= j < ids.len() ==> given@.contains_key(#[trigger] ids[j]) && given@[ids[j]]
                        == potential_prerequisites@[ids[j]],
            decreases ids.len() - k,
        {
            let id: Id = ids[k];
            let ghost before = given@;
            proof {
                lemma_prefix_contains(ids@, k as int);
                assert(given@.contains_key(ids[k as int]));
            }
            let info = given.remove(&id).unwrap();
            marked.insert(id, (info, false));
            proof {
                assert forall|j: int| k + 1 <= j < ids.len() implies given@.contains_key(
                    #[trigger] ids[j],
                ) && given@[ids[j]] == potential_prerequisites@[ids[j]] by {
                    assert(ids@[j] != ids@[k as int]);
                    assert(before.contains_key(ids[j]));
                }
            }
            k += 1;
        }
        proof {
            assert(ids@.subrange(0, ids.len() as int) =~= ids@);
            assert forall|id: Id| marked@.contains_key(id) <==> potential_prerequisites@.contains_key(
                id,
            ) by {
                lemma_listed(ids@, potential_prerequisites@.dom(), id);
            }
            assert(marked_view(marked@) =~= unmarked_view(potential_prerequisites@));
        }
        Self {
            potential_prerequisites: marked,
            name_input: TextInput::new(lesson.name),
            prerequisites: NodeList::new(lesson.direct_prerequisites),
            state: LessonEditFormState::EditingName,
            lesson_status: lesson.status,
        }
    }

    /// The lesson as the form holds it, without tags.
    pub fn to_lesson_info(&self) -> (lesson: LessonInfo)
        ensures
            lesson@ == self@.lesson(),
    {
        let ids = self.prerequisites.ids();
        let mut direct_prerequisites: Vec<Id> = Vec::new();
        let mut i: usize = 0;
        while i < ids.len()
            invariant
                i <= ids.len(),
                direct_prerequisites@ == ids@.subrange(0, i as int),
            decreases ids.len() - i,
        {
            direct_prerequisites.push(ids[i]);
            i += 1;
            assert(ids@.subrange(0, i as int) =~= ids@.subrange(0, i - 1).push(ids@[i - 1]));
        }
        assert(ids@.subrange(0, ids.len() as int) =~= ids@);
        let lesson = LessonInfo {
            name: String::from_str(self.name_input.text()),
            direct_prerequisites,
            status: self.lesson_status,
            tags: Vec::new(),
        };
        assert(lesson@.tags =~= Seq::<Seq<char>>::empty());
        lesson
    }

    /// What the form is busy with.
    pub fn state(&self) -> (state: &LessonEditFormState)
        ensures
            state@ == self@.state,
    {
        &self.state
    }

    /// The name of the lesson.
    pub fn name_input(&self) -> (name_input: &TextInput)
        ensures
            name_input@ == self@.name_input,
    {
        &self.name_input
    }

    /// The prerequisites of the lesson.
    pub fn prerequisites(&self) -> (prerequisites: &NodeList)
        ensures
            prerequisites@ == self@.prerequisites,
    {
        &self.prerequisites
    }

    /// Puts the cursor of the prerequisites on `index`.
    pub fn select_index(&mut self, index: Option<usize>)
        ensures
            final(self)@ == old(self)@.pointing(index),
    {
        self.prerequisites.select_index(index);
    }

    /// Puts the cursor of the results of the open finder on `index`, where
    /// a finder is open.
    pub fn select_finder_index(&mut self, index: Option<usize>)
        ensures
            final(self)@ == old(self)@.finder_pointing(index),
    {
        match &mut self.state {
            LessonEditFormState::AddingPrereq(finder) => finder.select_index(index),
            _ => (),
        }
    }

    /// Sets the mark of `id` to `mark`, where `id` is one of the lessons
    /// that can be made prerequisites.
    fn remark(&mut self, id: Id, mark: bool)
        ensures
            final(self)@ == (LessonEditFormView {
                potential_prerequisites: remarked(old(self)@.potential_prerequisites, id, mark),
                name_input: old(self)@.name_input,
                prerequisites: old(self)@.prerequisites,
                state: old(self)@.state,
                lesson_status: old(self)@.lesson_status,
            }),
    {
        match self.potential_prerequisites.remove(&id) {
            Some((info, _)) => {
                self.potential_prerequisites.insert(id, (info, mark));
            },
            None => {},
        }
        assert(marked_view(self.potential_prerequisites@) =~= remarked(
            marked_view(old(self).potential_prerequisites@),
            id,
            mark,
        ));
    }

    /// The lessons whose mark is not set, each once.
    #[verifier::loop_isolation(false)]
    fn unmarked(&self) -> (list: Vec<(Id, LessonInfo)>)
        ensures
            offered(self@.potential_prerequisites, entries(list@)),
    {
        let ids = keys_of(&self.potential_prerequisites);
        let ghost lessons = self@.potential_prerequisites;
        let mut list: Vec<(Id, LessonInfo)> = Vec::new();
        let mut k: usize = 0;
        assert(ids_of(entries(list@)) =~= Seq::<Id>::empty());
        while k < ids.len()
            invariant
                k <= ids.len(),
                ids_of(entries(list@)).no_duplicates(),
                forall|i: int|
                    0 <= i < list@.len() ==> lessons.contains_key((#[trigger] entries(list@)[i]).0)
                        && lessons[entries(list@)[i].0] == (entries(list@)[i].1, false),
                forall|id: Id|
                    ids_of(entries(list@)).contains(id) <==> ids@.subrange(0, k as int).contains(id)
                        && !lessons[id].1,
            decreases ids.len() - k,
        {
            let id: Id = ids[k];
            proof {
                lemma_listed(ids@, self.potential_prerequisites@.dom(), id);
                assert(ids@.contains(ids@[k as int]));
                lemma_prefix_contains(ids@, k as int);
                if ids@.subrange(0, k as int).contains(id) {
                    let j = choose|j: int| 0 <= j < k && ids@.subrange(0, k as int)[j] == id;
                    assert(ids@[j] == ids@[k as int]);
                }
            }
            let entry = self.potential_prerequisites.get(&id).unwrap();
            if !entry.1 {
                let ghost before = entries(list@);
                let info = entry.0.clone();
                list.push((id, info));
                proof {
                    let after = entries(list@);
                    assert(after =~= before.push((id, entry.0@)));
                    assert(ids_of(after) =~= ids_of(before).push(id));
                    lemma_push_contains(ids_of(before), id);
                    assert forall|i: int, j: int|
                        0 <= i < ids_of(after).len() && 0 <= j < ids_of(after).len() && i
                            != j implies ids_of(after)[i] != ids_of(after)[j] by {
                        if i < before.len() && j < before.len() {
                            assert(ids_of(before)[i] != ids_of(before)[j]);
                        } else if i < before.len() {
                            assert(ids_of(before).contains(ids_of(before)[i]));
                        } else {
                            assert(ids_of(before).contains(ids_of(before)[j]));
                        }
                    }
                    assert forall|i: int| 0 <= i < after.len() implies lessons.contains_key(
                        (#[trigger] after[i]).0,
                    ) && lessons[after[i].0] == (after[i].1, false) by {
                        if i < before.len() {
                            assert(after[i] == before[i]);
                        }
                    }
                }
            }
            k += 1;
        }
        proof {
            assert(ids@.subrange(0, ids.len() as int) =~= ids@);
            assert forall|id: Id| lessons.contains_key(id) && !lessons[id].1 implies #[trigger] ids_of(
                entries(list@),
            ).contains(id) by {
                lemma_listed(ids@, self.potential_prerequisites@.dom(), id);
            }
        }
        list
    }

    /// Takes the key event `key`, and says what it leaves to do.
    pub fn handle_key(&mut self, key: &KeyEvent) -> (action: LessonEditFormAction)
        ensures
            old(self)@.steps(*key, final(self)@, action@),
    {
        match &mut self.state {
            LessonEditFormState::EditingName => match key.code {
                KeyCode::Tab | KeyCode::Enter => {
                    self.state = LessonEditFormState::NavigatingPrereqs
                },
                KeyCode::Char('j') if key.alt => {
                    self.state = LessonEditFormState::NavigatingPrereqs
                },
                KeyCode::Esc => {
                    return LessonEditFormAction::Terminate(None);
                },
                _ => self.name_input.handle_key(key),
            },
            LessonEditFormState::NavigatingPrereqs => match key.code {
                KeyCode::Char('a') => {
                    let list = self.unmarked();
                    self.state = LessonEditFormState::AddingPrereq(FuzzyFinder::new(list));
                },
                KeyCode::Esc => {
                    return LessonEditFormAction::Terminate(None);
                },
                KeyCode::Tab => self.state = LessonEditFormState::Validating,
                KeyCode::BackTab => self.state = LessonEditFormState::EditingName,
                KeyCode::Char('j') if key.alt => {
                    self.state = LessonEditFormState::Validating
                },
                KeyCode::Char('k') if key.alt => {
                    self.state = LessonEditFormState::EditingName
                },
                KeyCode::Char('d') => {
                    if let Some(id) = self.prerequisites.currently_selected_id() {
                        self.remark(id, false);
                        self.prerequisites.remove_node(id);
                    }
                },
                _ => self.prerequisites.handle_key(key),
            },
            LessonEditFormState::AddingPrereq(finder) => match finder.handle_key(key) {
                FuzzyFinderAction::Terminate(Some(id)) => {
                    self.prerequisites.push(id);
                    self.remark(id, true);
                    self.state = LessonEditFormState::NavigatingPrereqs;
                },
                FuzzyFinderAction::Terminate(None) => {
                    self.state = LessonEditFormState::NavigatingPrereqs;
                },
                FuzzyFinderAction::Noop => (),
            },
            LessonEditFormState::Validating => match key.code {
                KeyCode::Char('k') if key.alt => {
                    self.state = LessonEditFormState::NavigatingPrereqs
                },
                KeyCode::BackTab => self.state = LessonEditFormState::NavigatingPrereqs,
                KeyCode::Enter => {
                    return LessonEditFormAction::Terminate(Some(self.to_lesson_info()));
                },
                KeyCode::Esc => {
                    return LessonEditFormAction::Terminate(None);
                },
                _ => (),
            },
        }
        LessonEditFormAction::Noop
    }
}

} // verus!
