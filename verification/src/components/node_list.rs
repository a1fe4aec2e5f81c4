//! A list of lessons with a cursor on one of them.

use crate::components::event::{KeyCode, KeyEvent};
use crate::lesson::{ids_without, without, Id};
use vstd::prelude::*;

verus! {

/// A list of lessons, by identifier, with the index of the selected one.
///
/// The index may lie beyond the list: whoever draws the list brings it back
/// into it, see `select_index`.
#[derive(Debug)]
pub struct NodeList {
    ids: Vec<Id>,
    selected: Option<usize>,
}

/// A `NodeList` as a mathematical value.
pub struct NodeListView {
    pub ids: Seq<Id>,
    pub selected: Option<usize>,
}

impl View for NodeList {
    type V = NodeListView;

    closed spec fn view(&self) -> NodeListView {
        NodeListView { ids: self.ids@, selected: self.selected }
    }
}

/// The index after the one selected, or the first where none is selected.
pub open spec fn next_index(selected: Option<usize>) -> usize {
    match selected {
        None => 0,
        Some(index) => if index < usize::MAX {
            (index + 1) as usize
        } else {
            index
        },
    }
}

/// The index before the one selected, or the last that there can be where
/// none is selected.
pub open spec fn previous_index(selected: Option<usize>) -> usize {
    match selected {
        None => usize::MAX,
        Some(index) => if index > 0 {
            (index - 1) as usize
        } else {
            index
        },
    }
}

impl NodeListView {
    /// The selected lesson, if the index points at one.
    pub open spec fn current(self) -> Option<Id> {
        match self.selected {
            Some(index) if index < self.ids.len() => Some(self.ids[index as int]),
            _ => None,
        }
    }

    /// The list with the cursor on the first occurrence of `id`, or on
    /// nothing where the list does not hold it.
    pub open spec fn pointing_at(self, id: Id) -> NodeListView {
        NodeListView {
            ids: self.ids,
            selected: match self.ids.index_of_first(id) {
                Some(index) => Some(index as usize),
                None => None,
            },
        }
    }

    /// The list after the key event `key`: `j` moves the cursor down, `k`
    /// moves it up, and nothing else moves it.
    pub open spec fn moved(self, key: KeyEvent) -> NodeListView {
        match key.code {
            KeyCode::Char(c) => if c == 'j' {
                NodeListView { ids: self.ids, selected: Some(next_index(self.selected)) }
            } else if c == 'k' {
                NodeListView { ids: self.ids, selected: Some(previous_index(self.selected)) }
            } else {
                self
            },
            _ => self,
        }
    }
}

impl NodeList {
    /// A list of `ids` with the cursor on the first.
    pub fn new(ids: Vec<Id>) -> (list: Self)
        ensures
            list@ == (NodeListView { ids: ids@, selected: Some(0) }),
    {
        Self { ids, selected: Some(0) }
    }

    /// The selected lesson, if the index points at one.
    pub fn currently_selected_id(&self) -> (id: Option<Id>)
        ensures
            id == self@.current(),
    {
        match self.selected {
            Some(list_index) => if list_index < self.ids.len() {
                Some(self.ids[list_index])
            } else {
                None
            },
            None => None,
        }
    }

    /// The lessons of the list.
    pub fn ids(&self) -> (ids: &[Id])
        ensures
            ids@ == self@.ids,
    {
        self.ids.as_slice()
    }

    /// The index of the selected lesson.
    pub fn selected(&self) -> (selected: Option<usize>)
        ensures
            selected == self@.selected,
    {
        self.selected
    }

    /// Puts the cursor on `index`: on the index that drawing the list has
    /// settled on.
    pub fn select_index(&mut self, index: Option<usize>)
        ensures
            final(self)@ == (NodeListView { ids: old(self)@.ids, selected: index }),
    {
        self.selected = index;
    }

    /// Puts the cursor on the first occurrence of `id`, or on nothing where
    /// the list does not hold it.
    pub fn select(&mut self, id: Id)
        ensures
            final(self)@ == old(self)@.pointing_at(id),
    {
        let mut index: Option<usize> = None;
        let mut i: usize = 0;
        while i < self.ids.len()
            invariant_except_break
                index is None,
                forall|j: int| 0 <= j < i ==> self.ids@[j] != id,
            invariant
                i <= self.ids.len(),
                self.ids@ == old(self).ids@,
            ensures
                self.ids@ == old(self).ids@,
                index is None ==> !self.ids@.contains(id),
                index matches Some(found) ==> found < self.ids@.len() && self.ids@[found as int]
                    == id && forall|j: int| 0 <= j < found ==> self.ids@[j] != id,
            decreases self.ids.len() - i,
        {
            if self.ids[i] == id {
                index = Some(i);
                break ;
            }
            i += 1;
        }
        proof {
            self.ids@.index_of_first_ensures(id);
            if let Some(found) = index {
                assert(self.ids@.contains(id));
                let first = self.ids@.index_of_first(id).unwrap();
                assert(self.ids@[first] == id);
                assert(first == found);
            }
        }
        self.selected = index;
    }

    /// Takes every occurrence of `id` out of the list.
    pub fn remove_node(&mut self, id: Id)
        ensures
            final(self)@ == (NodeListView {
                ids: without(old(self)@.ids, id),
                selected: old(self)@.selected,
            }),
    {
        self.ids = ids_without(&self.ids, id);
    }

    /// Adds `id` at the end of the list.
    pub fn push(&mut self, id: Id)
        ensures
            final(self)@ == (NodeListView {
                ids: old(self)@.ids.push(id),
                selected: old(self)@.selected,
            }),
    {
        self.ids.push(id);
    }

    /// Replaces the lessons of the list by `new_values`.
    pub fn change_values(&mut self, new_values: Vec<Id>)
        ensures
            final(self)@ == (NodeListView { ids: new_values@, selected: old(self)@.selected }),
    {
        self.ids = new_values;
    }

    /// Moves the cursor as the key event `key` asks.
    pub fn handle_key(&mut self, key: &KeyEvent)
        ensures
            final(self)@ == old(self)@.moved(*key),
    {
        match key.code {
            KeyCode::Char('j') => {
                let next: usize = match self.selected {
                    None => 0,
                    Some(index) => index.saturating_add(1),
                };
                self.selected = Some(next);
            },
            KeyCode::Char('k') => {
                let previous: usize = match self.selected {
                    None => usize::MAX,
                    Some(index) => index.saturating_sub(1),
                };
                self.selected = Some(previous);
            },
            _ => (),
        }
    }
}

} // verus!
