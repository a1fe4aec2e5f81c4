//! A search through lessons by name.

use crate::components::event::{KeyCode, KeyEvent, KeyEventKind};
use crate::components::node_list::{NodeList, NodeListView};
use crate::components::textinput::{typed, TextInput};
use crate::lesson::{Id, LessonInfo, LessonView};
use crate::text::{contains_text, occurs_in};
use vstd::prelude::*;

verus! {

/// What a fuzzy finder is busy with.
#[derive(Clone, Copy, Debug, PartialEq, Eq)]
pub enum FuzzyFinderState {
    TypingSearch,
    NavigatingResults,
}

/// What a key event leaves to do.
#[derive(Clone, Copy, Debug, PartialEq, Eq)]
pub enum FuzzyFinderAction {
    /// Nothing: the finder goes on.
    Noop,
    /// The finder is done, with the lesson that the user selected or
    /// without one.
    Terminate(Option<Id>),
}

/// A search through lessons by name.
#[derive(Debug)]
pub struct FuzzyFinder {
    /// The lessons that are searched.
    whole_list: Vec<(Id, LessonInfo)>,
    /// The lessons that match the search.
    match_list: NodeList,
    search_bar: TextInput,
    state: FuzzyFinderState,
}

/// A `FuzzyFinder` as a mathematical value.
pub struct FuzzyFinderView {
    pub whole_list: Seq<(Id, LessonView)>,
    pub match_list: NodeListView,
    pub search_bar: Seq<char>,
    pub state: FuzzyFinderState,
}

/// The lessons of a list, as mathematical values.
pub open spec fn entries(list: Seq<(Id, LessonInfo)>) -> Seq<(Id, LessonView)> {
    list.map_values(|entry: (Id, LessonInfo)| (entry.0, entry.1@))
}

/// The identifiers of the lessons of a list.
pub open spec fn ids_of(list: Seq<(Id, LessonView)>) -> Seq<Id> {
    list.map_values(|entry: (Id, LessonView)| entry.0)
}

/// The test that keeps the lessons whose name holds `pattern`.
pub open spec fn named_like(pattern: Seq<char>) -> spec_fn((Id, LessonView)) -> bool {
    |entry: (Id, LessonView)| occurs_in(pattern, entry.1.name)
}

/// The lessons of `list` whose name holds `pattern`, in order.
pub open spec fn matching(list: Seq<(Id, LessonView)>, pattern: Seq<char>) -> Seq<Id> {
    ids_of(list.filter(named_like(pattern)))
}

/// The matching lessons of a list, from those of its front.
pub proof fn lemma_matching_push(
    list: Seq<(Id, LessonView)>,
    last: (Id, LessonView),
    pattern: Seq<char>,
)
    ensures
        matching(list.push(last), pattern) == if occurs_in(pattern, last.1.name) {
            matching(list, pattern).push(last.0)
        } else {
            matching(list, pattern)
        },
{
    reveal(Seq::filter);
    assert(list.push(last).drop_last() =~= list);
    let kept = list.filter(named_like(pattern));
    if occurs_in(pattern, last.1.name) {
        assert(ids_of(kept.push(last)) =~= ids_of(kept).push(last.0));
    }
}

/// Every lesson matches the empty search.
pub proof fn lemma_matching_all(list: Seq<(Id, LessonView)>)
    ensures
        matching(list, Seq::empty()) == ids_of(list),
    decreases list.len(),
{
    reveal(Seq::filter);
    if list.len() > 0 {
        let front = list.drop_last();
        lemma_matching_all(front);
        assert(list =~= front.push(list.last()));
        lemma_matching_push(front, list.last(), Seq::empty());
        let nothing = Seq::<char>::empty();
        assert(list.last().1.name.subrange(0int, 0int + nothing.len()) =~= nothing);
        assert(occurs_in(nothing, list.last().1.name));
        assert(ids_of(front).push(list.last().0) =~= ids_of(list));
    } else {
        assert(matching(list, Seq::empty()) =~= ids_of(list));
    }
}

/// A lesson that matches a search is a lesson of the list.
pub proof fn lemma_matching_listed(list: Seq<(Id, LessonView)>, pattern: Seq<char>, id: Id)
    requires
        matching(list, pattern).contains(id),
    ensures
        ids_of(list).contains(id),
{
    let kept = list.filter(named_like(pattern));
    let j = choose|j: int| 0 <= j < matching(list, pattern).len() && matching(list, pattern)[j] == id;
    assert(kept[j].0 == id);
    assert(kept.contains(kept[j]));
    list.lemma_filter_contains_rev(named_like(pattern), kept[j]);
    let i = choose|i: int| 0 <= i < list.len() && list[i] == kept[j];
    assert(ids_of(list)[i] == id);
}

impl View for FuzzyFinder {
    type V = FuzzyFinderView;

    closed spec fn view(&self) -> FuzzyFinderView {
        FuzzyFinderView {
            whole_list: entries(self.whole_list@),
            match_list: self.match_list@,
            search_bar: self.search_bar@,
            state: self.state,
        }
    }
}

impl FuzzyFinderView {
    /// The results are the lessons that match the search.
    pub open spec fn wf(self) -> bool {
        self.match_list.ids == matching(self.whole_list, self.search_bar)
    }

    /// A finder whose results match its search keeps them so, and ends
    /// with none but a lesson of its list.
    pub proof fn lemma_step(self, key: KeyEvent)
        requires
            self.wf(),
        ensures
            self.step(key).0.wf(),
            self.step(key).0.whole_list == self.whole_list,
            self.step(key).1 matches FuzzyFinderAction::Terminate(Some(id)) ==> ids_of(
                self.whole_list,
            ).contains(id),
    {
        if let FuzzyFinderAction::Terminate(Some(id)) = self.step(key).1 {
            assert(self.match_list.ids.contains(id));
            lemma_matching_listed(self.whole_list, self.search_bar, id);
        }
    }

    /// The finder that opens on `list`: every lesson matches the empty
    /// search, and the cursor is on the first.
    pub open spec fn opening(list: Seq<(Id, LessonView)>) -> FuzzyFinderView {
        FuzzyFinderView {
            whole_list: list,
            match_list: NodeListView { ids: ids_of(list), selected: Some(0) },
            search_bar: Seq::empty(),
            state: FuzzyFinderState::TypingSearch,
        }
    }

    /// The finder with the cursor of the results on `index`.
    pub open spec fn pointing(self, index: Option<usize>) -> FuzzyFinderView {
        FuzzyFinderView {
            whole_list: self.whole_list,
            match_list: NodeListView { ids: self.match_list.ids, selected: index },
            search_bar: self.search_bar,
            state: self.state,
        }
    }

    /// The finder in the state `state`.
    pub open spec fn busy_with(self, state: FuzzyFinderState) -> FuzzyFinderView {
        FuzzyFinderView {
            whole_list: self.whole_list,
            match_list: self.match_list,
            search_bar: self.search_bar,
            state,
        }
    }

    /// The finder after a key press while the search is typed: Esc and
    /// Enter pass to the results; any other key goes to the search bar, and
    /// the results are searched again.
    pub open spec fn typing(self, key: KeyEvent) -> (FuzzyFinderView, FuzzyFinderAction) {
        match key.code {
            KeyCode::Esc | KeyCode::Enter => (
                self.busy_with(FuzzyFinderState::NavigatingResults),
                FuzzyFinderAction::Noop,
            ),
            _ => (
                FuzzyFinderView {
                    whole_list: self.whole_list,
                    match_list: NodeListView {
                        ids: matching(self.whole_list, typed(self.search_bar, key)),
                        selected: self.match_list.selected,
                    },
                    search_bar: typed(self.search_bar, key),
                    state: self.state,
                },
                FuzzyFinderAction::Noop,
            ),
        }
    }

    /// The finder after a key press among the results: `a` and `i` pass to
    /// the search bar, Esc ends without a lesson, Enter ends with the
    /// selected one, and any other key goes to the list of results.
    pub open spec fn navigating(self, key: KeyEvent) -> (FuzzyFinderView, FuzzyFinderAction) {
        match key.code {
            KeyCode::Char(c) if c == 'a' || c == 'i' => (
                self.busy_with(FuzzyFinderState::TypingSearch),
                FuzzyFinderAction::Noop,
            ),
            KeyCode::Esc => (self, FuzzyFinderAction::Terminate(None)),
            KeyCode::Enter => (self, FuzzyFinderAction::Terminate(self.match_list.current())),
            _ => (
                FuzzyFinderView {
                    whole_list: self.whole_list,
                    match_list: self.match_list.moved(key),
                    search_bar: self.search_bar,
                    state: self.state,
                },
                FuzzyFinderAction::Noop,
            ),
        }
    }

    /// The finder after the key event `key`, and what the event leaves to
    /// do. Only key presses count.
    pub open spec fn step(self, key: KeyEvent) -> (FuzzyFinderView, FuzzyFinderAction) {
        if key.kind != KeyEventKind::Press {
            (self, FuzzyFinderAction::Noop)
        } else {
            match self.state {
                FuzzyFinderState::TypingSearch => self.typing(key),
                FuzzyFinderState::NavigatingResults => self.navigating(key),
            }
        }
    }
}

impl FuzzyFinder {
    /// A finder over the lessons of `whole_list`.
    pub fn new(whole_list: Vec<(Id, LessonInfo)>) -> (finder: Self)
        ensures
            finder@ == FuzzyFinderView::opening(entries(whole_list@)),
            finder@.wf(),
    {
        proof {
            lemma_matching_all(entries(whole_list@));
        }
        let mut id_list: Vec<Id> = Vec::new();
        let mut i: usize = 0;
        while i < whole_list.len()
            invariant
                i <= whole_list.len(),
                id_list@ == ids_of(entries(whole_list@)).subrange(0, i as int),
            decreases whole_list.len() - i,
        {
            id_list.push(whole_list[i].0);
            i += 1;
            assert(ids_of(entries(whole_list@)).subrange(0, i as int) =~= ids_of(
                entries(whole_list@),
            ).subrange(0, i - 1).push(whole_list@[i - 1].0));
        }
        assert(ids_of(entries(whole_list@)).subrange(0, whole_list.len() as int) =~= ids_of(
            entries(whole_list@),
        ));
        let match_list = NodeList::new(id_list);
        Self {
            whole_list,
            match_list,
            search_bar: TextInput::default(),
            state: FuzzyFinderState::TypingSearch,
        }
    }

    /// The lessons whose name holds the text of the search bar, in the
    /// order of the list.
    pub fn perform_search(&self) -> (found: Vec<Id>)
        ensures
            found@ == matching(self@.whole_list, self@.search_bar),
    {
        let searched_string = self.search_bar.text();
        let ghost list = entries(self.whole_list@);
        let mut found: Vec<Id> = Vec::new();
        let mut i: usize = 0;
        proof {
            reveal(Seq::filter);
            assert(ids_of(Seq::<(Id, LessonView)>::empty()) =~= Seq::<Id>::empty());
        }
        while i < self.whole_list.len()
            invariant
                i <= self.whole_list.len(),
                list == entries(self.whole_list@),
                searched_string@ == self.search_bar@,
                found@ == matching(list.subrange(0, i as int), searched_string@),
            decreases self.whole_list.len() - i,
        {
            proof {
                lemma_matching_push(list.subrange(0, i as int), list[i as int], searched_string@);
                assert(list.subrange(0, i + 1) =~= list.subrange(0, i as int).push(list[i as int]));
            }
            if contains_text(self.whole_list[i].1.name.as_str(), searched_string) {
                found.push(self.whole_list[i].0);
            }
            i += 1;
        }
        assert(list.subrange(0, self.whole_list.len() as int) =~= list);
        found
    }

    /// What the finder is busy with.
    pub fn state(&self) -> (state: FuzzyFinderState)
        ensures
            state == self@.state,
    {
        self.state
    }

    /// The search bar.
    pub fn search_bar(&self) -> (search_bar: &TextInput)
        ensures
            search_bar@ == self@.search_bar,
    {
        &self.search_bar
    }

    /// The lessons that match the search.
    pub fn match_list(&self) -> (match_list: &NodeList)
        ensures
            match_list@ == self@.match_list,
    {
        &self.match_list
    }

    /// Puts the cursor of the results on `index`.
    pub fn select_index(&mut self, index: Option<usize>)
        ensures
            final(self)@ == old(self)@.pointing(index),
    {
        self.match_list.select_index(index);
    }

    /// Takes the key event `key`, and says what it leaves to do.
    pub fn handle_key(&mut self, key: &KeyEvent) -> (action: FuzzyFinderAction)
        ensures
            (final(self)@, action) == old(self)@.step(*key),
    {
        match key.kind {
            KeyEventKind::Press => {},
            _ => {
                return FuzzyFinderAction::Noop;
            },
        }
        match &self.state {
            FuzzyFinderState::TypingSearch => self.handle_key_typing(key),
            FuzzyFinderState::NavigatingResults => self.handle_key_navigating(key),
        }
    }

    fn handle_key_typing(&mut self, key: &KeyEvent) -> (action: FuzzyFinderAction)
        ensures
            (final(self)@, action) == old(self)@.typing(*key),
    {
        match key.code {
            KeyCode::Esc | KeyCode::Enter => self.state = FuzzyFinderState::NavigatingResults,
            _ => {
                self.search_bar.handle_key(key);
                let new_matches = self.perform_search();
                self.match_list.change_values(new_matches);
            },
        }
        FuzzyFinderAction::Noop
    }

    fn handle_key_navigating(&mut self, key: &KeyEvent) -> (action: FuzzyFinderAction)
        ensures
            (final(self)@, action) == old(self)@.navigating(*key),
    {
        match key.code {
            KeyCode::Char('a') | KeyCode::Char('i') => {
                self.state = FuzzyFinderState::TypingSearch;
                FuzzyFinderAction::Noop
            },
            KeyCode::Esc => FuzzyFinderAction::Terminate(None),
            KeyCode::Enter => FuzzyFinderAction::Terminate(self.match_list.currently_selected_id()),
            _ => {
                self.match_list.handle_key(key);
                FuzzyFinderAction::Noop
            },
        }
    }
}

} // verus!
