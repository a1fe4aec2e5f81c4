//! The choice of a practice status for a lesson that was just studied.

use crate::components::event::{KeyCode, KeyEvent};
use crate::schedule::{LessonStatus, StudyChoice};
use vstd::prelude::*;

verus! {

/// The column on which the cursor of a study editor stands.
#[derive(Clone, Copy, Debug, PartialEq, Eq)]
pub enum StudyEditorState {
    GoodEnough,
    NotPracticed,
    Practiced,
}

/// The choice of a practice status: one of three columns, and a level for
/// the column of the practiced lessons.
#[derive(Clone, Copy, Debug, PartialEq, Eq)]
pub struct StudyEditor {
    state: StudyEditorState,
    step: u32,
}

/// A `StudyEditor` as a mathematical value.
pub struct StudyEditorView {
    pub state: StudyEditorState,
    pub step: u32,
}

/// What a key event leaves to do.
#[derive(Clone, Copy, Debug, PartialEq, Eq)]
pub enum StudyEditorAction {
    /// Nothing: the editor goes on.
    Noop,
    /// The editor is done, with the choice made or without one.
    Terminate(Option<StudyChoice>),
}

impl View for StudyEditor {
    type V = StudyEditorView;

    closed spec fn view(&self) -> StudyEditorView {
        StudyEditorView { state: self.state, step: self.step }
    }
}

/// The level after `step`, as far as 32 bits hold it.
pub open spec fn level_up(step: u32) -> u32 {
    if step < u32::MAX {
        (step + 1) as u32
    } else {
        step
    }
}

impl StudyEditorView {
    /// The editor that opens on a lesson with the status `status`: on the
    /// column of the lessons that are good enough if the lesson is, else on
    /// the column of the practiced lessons; at the level after the one of a
    /// practiced lesson, else at the first level.
    pub open spec fn opening(status: LessonStatus) -> StudyEditorView {
        StudyEditorView {
            state: if status is GoodEnough {
                StudyEditorState::GoodEnough
            } else {
                StudyEditorState::Practiced
            },
            step: match status {
                LessonStatus::Practiced { level, .. } => level_up(level),
                _ => 0,
            },
        }
    }

    /// The choice that the editor stands on.
    pub open spec fn choice(self) -> StudyChoice {
        match self.state {
            StudyEditorState::GoodEnough => StudyChoice::GoodEnough,
            StudyEditorState::NotPracticed => StudyChoice::NotPracticed,
            StudyEditorState::Practiced => StudyChoice::Practiced { level: self.step },
        }
    }

    /// The column to the right, where there is one.
    pub open spec fn right(self) -> StudyEditorView {
        StudyEditorView {
            state: match self.state {
                StudyEditorState::GoodEnough => StudyEditorState::GoodEnough,
                StudyEditorState::NotPracticed => StudyEditorState::Practiced,
                StudyEditorState::Practiced => StudyEditorState::GoodEnough,
            },
            step: self.step,
        }
    }

    /// The column to the left, where there is one.
    pub open spec fn left(self) -> StudyEditorView {
        StudyEditorView {
            state: match self.state {
                StudyEditorState::GoodEnough => StudyEditorState::Practiced,
                StudyEditorState::NotPracticed => StudyEditorState::NotPracticed,
                StudyEditorState::Practiced => StudyEditorState::NotPracticed,
            },
            step: self.step,
        }
    }

    /// One level up, on the column of the practiced lessons.
    pub open spec fn up(self) -> StudyEditorView {
        if self.state is Practiced {
            StudyEditorView { state: self.state, step: level_up(self.step) }
        } else {
            self
        }
    }

    /// One level down, on the column of the practiced lessons, where there
    /// is one.
    pub open spec fn down(self) -> StudyEditorView {
        if self.state is Practiced && self.step > 0 {
            StudyEditorView { state: self.state, step: (self.step - 1) as u32 }
        } else {
            self
        }
    }

    /// The editor after the key event `key`, and what the event leaves to
    /// do. `l` and Tab go right, `h` and BackTab go left, `j` goes a level
    /// up and `k` a level down; Enter ends with the choice and Esc without.
    pub open spec fn step(self, key: KeyEvent) -> (StudyEditorView, StudyEditorAction) {
        match key.code {
            KeyCode::Tab => (self.right(), StudyEditorAction::Noop),
            KeyCode::BackTab => (self.left(), StudyEditorAction::Noop),
            KeyCode::Enter => (self, StudyEditorAction::Terminate(Some(self.choice()))),
            KeyCode::Esc => (self, StudyEditorAction::Terminate(None)),
            KeyCode::Char(c) => if c == 'l' {
                (self.right(), StudyEditorAction::Noop)
            } else if c == 'h' {
                (self.left(), StudyEditorAction::Noop)
            } else if c == 'j' {
                (self.up(), StudyEditorAction::Noop)
            } else if c == 'k' {
                (self.down(), StudyEditorAction::Noop)
            } else {
                (self, StudyEditorAction::Noop)
            },
            _ => (self, StudyEditorAction::Noop),
        }
    }
}

impl StudyEditor {
    /// The editor that opens on a lesson with the status `status`.
    pub fn new(status: LessonStatus) -> (editor: Self)
        ensures
            editor@ == StudyEditorView::opening(status),
    {
        let state = match &status {
            LessonStatus::NotPracticed | LessonStatus::Practiced { .. } => {
                StudyEditorState::Practiced
            },
            LessonStatus::GoodEnough => StudyEditorState::GoodEnough,
        };
        let step: u32 = match &status {
            LessonStatus::Practiced { level, .. } => level.saturating_add(1),
            LessonStatus::NotPracticed | LessonStatus::GoodEnough => 0,
        };
        Self { state, step }
    }

    /// The choice that the editor stands on.
    pub fn to_choice(&self) -> (choice: StudyChoice)
        ensures
            choice == self@.choice(),
    {
        match self.state {
            StudyEditorState::GoodEnough => StudyChoice::GoodEnough,
            StudyEditorState::NotPracticed => StudyChoice::NotPracticed,
            StudyEditorState::Practiced => StudyChoice::Practiced { level: self.step },
        }
    }

    /// The column on which the cursor stands.
    pub fn state(&self) -> (state: StudyEditorState)
        ensures
            state == self@.state,
    {
        self.state
    }

    /// The level on the column of the practiced lessons.
    pub fn level(&self) -> (step: u32)
        ensures
            step == self@.step,
    {
        self.step
    }

    /// Takes the key event `key`, and says what it leaves to do.
    pub fn handle_key(&mut self, key: &KeyEvent) -> (action: StudyEditorAction)
        ensures
            (final(self)@, action) == old(self)@.step(*key),
    {
        match key.code {
            KeyCode::Char('l') | KeyCode::Tab => match self.state {
                StudyEditorState::GoodEnough => (),
                StudyEditorState::NotPracticed => self.state = StudyEditorState::Practiced,
                StudyEditorState::Practiced => self.state = StudyEditorState::GoodEnough,
            },
            KeyCode::Char('h') | KeyCode::BackTab => match self.state {
                StudyEditorState::GoodEnough => self.state = StudyEditorState::Practiced,
                StudyEditorState::NotPracticed => (),
                StudyEditorState::Practiced => self.state = StudyEditorState::NotPracticed,
            },
            KeyCode::Char('j') => {
                if let StudyEditorState::Practiced = self.state {
                    self.step = self.step.saturating_add(1);
                }
            },
            KeyCode::Char('k') => {
                if let StudyEditorState::Practiced = self.state {
                    if self.step > 0 {
                        self.step -= 1;
                    }
                }
            },
            KeyCode::Enter => {
                return StudyEditorAction::Terminate(Some(self.to_choice()));
            },
            KeyCode::Esc => {
                return StudyEditorAction::Terminate(None);
            },
            _ => (),
        }
        StudyEditorAction::Noop
    }
}

} // verus!
