//! The storage port: what the graph asks of whatever keeps the lessons.

use crate::lesson::{Id, LessonInfo};
use std::collections::HashMap;
use vstd::prelude::*;

verus! {

/// A store of lessons, keyed by identifier. The graph loads every lesson from
/// it once, and writes each change through to it.
pub trait IOBackend {
    type Error: std::fmt::Debug;

    /// Every lesson of the store.
    fn query_lessons(&self) -> Result<HashMap<Id, LessonInfo>, Self::Error>;

    /// Stores the new lesson `lesson` under `id`.
    fn add_new_lesson(&self, id: Id, lesson: &LessonInfo) -> Result<(), Self::Error>;

    /// Replaces the lesson stored under `id` by `lesson`.
    fn update_existing_lesson(&self, id: Id, lesson: &LessonInfo) -> Result<(), Self::Error>;

    /// Removes the lesson stored under `id`.
    fn remove_lesson(&self, id: Id) -> Result<(), Self::Error>;
}

} // verus!
